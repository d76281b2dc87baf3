use pf2e_companion::foundry::{is_json_file, extract_description, foundry_record, ImportReport, LicensePosture};
use pf2e_companion::json::Json;

fn s(x: &str) -> Json {
    Json::String(x.to_string())
}

fn obj(entries: Vec<(&str, Json)>) -> Json {
    Json::Object(entries.into_iter().map(|(k, v)| (k.to_string(), v)).collect())
}

#[test]
fn foundry_record_extraction() {
    let v = obj(vec![
        ("_id", s("ABC1234567890XYZ")),
        ("name", s("Force Barrage")),
        ("type", s("spell")),
        ("system", obj(vec![("description", obj(vec![("value", s("<p>Three magical missiles…</p>"))]))])),
    ]);
    let desc = extract_description(&v);
    assert!(desc.contains("magical missiles"));
}

#[test]
fn license_posture_strings() {
    assert_eq!(LicensePosture::Orc.as_str(), "orc");
    assert_eq!(LicensePosture::CommunityUse.as_str(), "community-use");
}

#[test]
fn license_posture_parse() {
    assert_eq!(LicensePosture::parse("homebrew"), Ok(LicensePosture::Homebrew));
    assert_eq!(LicensePosture::parse("proprietary"), Ok(LicensePosture::Proprietary));
    assert_eq!(LicensePosture::parse("OGL"), Err("unknown license `OGL`".to_string()));
    for p in [LicensePosture::Orc, LicensePosture::CommunityUse, LicensePosture::Homebrew, LicensePosture::Proprietary] {
        assert_eq!(LicensePosture::parse(p.as_str()), Ok(p));
    }
}

#[test]
fn description_prefers_details() {
    let v = obj(vec![(
        "system",
        obj(vec![
            ("details", obj(vec![("description", obj(vec![("value", s("from details"))]))])),
            ("description", obj(vec![("value", s("plain"))])),
        ]),
    )]);
    assert_eq!(extract_description(&v), "from details");
    let v = obj(vec![("system", obj(vec![("description", obj(vec![("value", Json::Null)]))]))]);
    assert_eq!(extract_description(&v), "");
}

#[test]
fn record_ids_and_defaults() {
    let with_id = obj(vec![("_id", s("AAAAAAAAAAAAAAAA")), ("name", s("Heal")), ("type", s("spell"))]);
    let r = foundry_record(&with_id);
    assert_eq!(r.id, "foundry:AAAAAAAAAAAAAAAA");
    assert_eq!(r.name, "Heal");
    assert_eq!(r.entity_type, "spell");
    let no_id = obj(vec![("name", s("Force Barrage"))]);
    let r = foundry_record(&no_id);
    assert_eq!(r.id, "foundry:force-barrage");
    assert_eq!(r.entity_type, "unknown");
    let r = foundry_record(&obj(vec![]));
    assert_eq!(r.id, "foundry:unnamed");
    assert_eq!(r.name, "(unnamed)");
    match &r.frontmatter {
        Json::Object(es) => {
            let keys: Vec<&str> = es.iter().map(|(k, _)| k.as_str()).collect();
            assert_eq!(keys, vec!["source", "title", "type"]);
        }
        _ => panic!("frontmatter is an object"),
    }
}

#[test]
fn import_report_counts() {
    let mut r = ImportReport::new(3);
    r.note_imported();
    r.note_skipped("packs/spells/broken.json", "expected value at line 1 column 1");
    assert_eq!(r.files_imported, 1);
    assert_eq!(r.files_skipped, 1);
    assert_eq!(r.remaining(), 1);
    assert_eq!(r.errors, vec!["packs/spells/broken.json: expected value at line 1 column 1".to_string()]);
}

#[test]
fn pack_files_are_json() {
    assert!(is_json_file("packs/spells/force-barrage.json"));
    assert!(is_json_file("heal.json"));
    assert!(!is_json_file("packs/spells/broken.txt"));
    assert!(!is_json_file("packs/spells/.json"));
    assert!(!is_json_file("packs/spells"));
    assert!(is_json_file("packs/spells/a.b.json/"));
}
