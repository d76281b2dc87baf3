use pf2e_companion::json::Json;
use pf2e_companion::vault::check_ingest_license;
use pf2e_companion::vault::{vault_action, FsChange, VaultAction};
use pf2e_companion::vault_write::{
    campaign_id, campaign_manifest, entity_file, entity_file_contents, entity_id, merge_campaigns, new_frontmatter,
    patch_frontmatter, patched_body, plan_update, plural, safe_segment, validate_license, vault_root, EntityInput,
    EntityPatch, VaultRoot,
};

#[test]
fn safe_segment_rejects_traversal() {
    assert!(safe_segment("..").is_err());
    assert!(safe_segment(".hidden").is_err());
    assert!(safe_segment("a/b").is_err());
    assert!(safe_segment("ok").is_ok());
}

#[test]
fn safe_segment_messages() {
    assert_eq!(safe_segment("").unwrap_err(), "unsafe path segment: \"\"");
    assert_eq!(safe_segment("a\\b").unwrap_err(), "unsafe path segment: \"a\\\\b\"");
    assert!(safe_segment("main").is_ok());
}

#[test]
fn pluralizes_paths() {
    assert_eq!(plural("npc"), "npcs");
    assert_eq!(plural("location"), "locations");
    assert_eq!(plural("city"), "cities");
    assert_eq!(plural("class"), "classes");
    assert_eq!(plural("notes"), "notes");
}

#[test]
fn pluralizes_more_paths() {
    assert_eq!(plural("church"), "churches");
    assert_eq!(plural("box"), "boxes");
    assert_eq!(plural("y"), "ys");
    assert_eq!(plural(""), "s");
}

#[test]
fn validate_license_strict() {
    assert!(validate_license("orc").is_ok());
    assert!(validate_license("community-use").is_ok());
    assert!(validate_license("OGL").is_err());
}

#[test]
fn validate_license_message() {
    assert_eq!(
        validate_license("OGL").unwrap_err(),
        "license_provenance `OGL` not in [orc, community-use, homebrew, proprietary]"
    );
    assert_eq!(
        check_ingest_license("npcs/x.md", "OGL").unwrap_err(),
        "npcs/x.md: invalid license_provenance `OGL` — must be orc | community-use | homebrew | proprietary"
    );
    assert!(check_ingest_license("npcs/x.md", "proprietary").is_ok());
}

#[test]
fn entity_ids_and_files() {
    assert_eq!(entity_id("main", "npc", "Lord Cassian").unwrap(), "main:npc/lord-cassian");
    assert_eq!(entity_file("main", "npc", "Lord Cassian").unwrap(), "campaigns/main/npcs/lord-cassian.md");
    assert_eq!(entity_file("main", "City", "New Jerusalem").unwrap(), "campaigns/main/cities/new-jerusalem.md");
    assert_eq!(entity_id("main", "npc", "!!!").unwrap_err(), "type and title must produce non-empty slugs");
    assert_eq!(entity_id("../../etc", "npc", "x").unwrap_err(), "unsafe path segment: \"../../etc\"");
    assert_eq!(entity_file("main", "npc", "!!!").unwrap_err(), "unsafe path segment: \"\"");
}

#[test]
fn campaign_ids_and_manifest() {
    assert_eq!(campaign_id("Burning Bush Saga").unwrap(), "burning-bush-saga");
    assert_eq!(campaign_id("???").unwrap_err(), "campaign name produces an empty slug");
    let m = campaign_manifest("burning-bush-saga", "Burning Bush Saga", Some("lewisian"), "2026-01-02T03:04:05Z");
    assert_eq!(
        m,
        "# pf2e-companion campaign manifest\n[campaign]\nid = \"burning-bush-saga\"\nname = \"Burning Bush Saga\"\ndefault_lens = \"lewisian\"\ncreated = \"2026-01-02T03:04:05Z\"\n"
    );
    let m = campaign_manifest("x", "X", None, "t");
    assert!(m.contains("name = \"X\"\n\ncreated = \"t\"\n"));
}

#[test]
fn update_plans() {
    let p = plan_update("main:npc/lord-cassian", "main", "npc", "Lord Cassian", &None).unwrap();
    assert_eq!(p.new_id, "main:npc/lord-cassian");
    assert_eq!(p.target_file, "campaigns/main/npcs/lord-cassian.md");
    let p = plan_update("main:npc/lord-cassian", "main", "npc", "Lord Cassian", &Some("Lord Cassian Velerian".to_string())).unwrap();
    assert_eq!(p.new_id, "main:npc/lord-cassian-velerian");
    assert_eq!(p.target_file, "campaigns/main/npcs/lord-cassian-velerian.md");
}

fn input(lp: Option<&str>, extra: Vec<(&str, Json)>) -> EntityInput {
    EntityInput {
        campaign_id: "main".to_string(),
        kind: "npc".to_string(),
        title: "Lord Cassian".to_string(),
        lens: Some("lewisian".to_string()),
        license_provenance: lp.map(str::to_string),
        body: None,
        frontmatter: extra.into_iter().map(|(k, v)| (k.to_string(), v)).collect(),
    }
}

#[test]
fn new_entity_frontmatter() {
    let es = new_frontmatter(
        "main:npc/lord-cassian",
        &input(None, vec![("status", Json::String("budding".to_string())), ("title", Json::Null), ("lens", Json::Bool(true))]),
    )
    .unwrap();
    let keys: Vec<&str> = es.iter().map(|(k, _)| k.as_str()).collect();
    assert_eq!(keys, vec!["id", "title", "type", "campaign_id", "lens", "license_provenance", "status"]);
    assert!(matches!(&es[1].1, Json::String(t) if t == "Lord Cassian"));
    assert!(matches!(&es[4].1, Json::Bool(true)));
    assert!(matches!(&es[5].1, Json::String(t) if t == "homebrew"));
    let err = new_frontmatter("x", &input(Some("OGL"), vec![])).unwrap_err();
    assert!(err.contains("license_provenance"));
}

#[test]
fn campaigns_sorted_and_merged() {
    let rows = vec![("zeta".to_string(), 3i64), ("alpha".to_string(), 1i64)];
    let dirs = vec!["beta".to_string(), "alpha".to_string()];
    let cs = merge_campaigns(&rows, &dirs);
    let ids: Vec<&str> = cs.iter().map(|c| c.id.as_str()).collect();
    assert_eq!(ids, vec!["alpha", "beta", "zeta"]);
    assert_eq!(cs[0].entity_count, 1);
    assert_eq!(cs[1].entity_count, 0);
    assert_eq!(cs[2].entity_count, 3);
    assert_eq!(cs[1].name, "beta");
}

#[test]
fn vault_root_path() {
    let v = VaultRoot("/tmp/vault".to_string());
    assert_eq!(vault_root(&v), "/tmp/vault");
}

fn entries(v: Vec<(&str, Json)>) -> Vec<(String, Json)> {
    v.into_iter().map(|(k, v)| (k.to_string(), v)).collect()
}

fn st(x: &str) -> Json {
    Json::String(x.to_string())
}

fn no_patch() -> EntityPatch {
    EntityPatch { title: None, lens: None, license_provenance: None, body: None, frontmatter: None }
}

fn keys_of(es: &[(String, Json)]) -> Vec<&str> {
    es.iter().map(|(k, _)| k.as_str()).collect()
}

#[test]
fn campaigns_crud_round_trip() {
    assert!(merge_campaigns(&vec![], &vec![]).is_empty(), "fresh vault should be empty");
    let id = campaign_id("Burning Bush Saga").unwrap();
    assert_eq!(id, "burning-bush-saga");
    let manifest_text = campaign_manifest(&id, "Burning Bush Saga", Some("lewisian"), "2026-01-02T03:04:05Z");
    assert!(manifest_text.contains("name = \"Burning Bush Saga\""));
    assert!(manifest_text.contains("default_lens = \"lewisian\""));
    let camps = merge_campaigns(&vec![], &vec![id.clone()]);
    assert_eq!(camps.len(), 1);
    assert_eq!(camps[0].id, "burning-bush-saga");
    assert_eq!(camps[0].entity_count, 0);
}

#[test]
fn entity_create_update_round_trip_through_vault() {
    let mut inp = input(Some("homebrew"), vec![("status", st("budding"))]);
    inp.body = Some("# Lord Cassian\n\nA knight of the watch.\n".to_string());
    let id = entity_id(&inp.campaign_id, &inp.kind, &inp.title).unwrap();
    assert_eq!(id, "main:npc/lord-cassian");
    assert_eq!(entity_file(&inp.campaign_id, &inp.kind, &inp.title).unwrap(), "campaigns/main/npcs/lord-cassian.md");
    let fm = new_frontmatter(&id, &inp).unwrap();
    assert!(matches!(&fm[1], (k, Json::String(t)) if k == "title" && t == "Lord Cassian"));
    assert!(matches!(&fm[5], (k, Json::String(t)) if k == "license_provenance" && t == "homebrew"));
    assert!(matches!(&fm[6], (k, Json::String(t)) if k == "status" && t == "budding"));
    let text = entity_file_contents("title: Lord Cassian\n", inp.body.as_deref().unwrap());
    assert!(text.contains("A knight of the watch."));

    // Update the body, title untouched.
    let mut patch = no_patch();
    patch.body = Some("# Lord Cassian\n\nKnight Commander of the Watch.\n".to_string());
    let plan = plan_update(&id, "main", "npc", "Lord Cassian", &patch.title).unwrap();
    assert_eq!(plan.new_id, "main:npc/lord-cassian");
    let updated = patch_frontmatter(fm, &plan.new_id, &patch).unwrap();
    assert!(matches!(&updated[1], (k, Json::String(t)) if k == "title" && t == "Lord Cassian"));
    assert!(patched_body(&patch, "old").contains("Knight Commander of the Watch."));

    // Rename.
    let mut rename = no_patch();
    rename.title = Some("Lord Cassian Velerian".to_string());
    let plan = plan_update(&plan.new_id, "main", "npc", "Lord Cassian", &rename.title).unwrap();
    assert_eq!(plan.new_id, "main:npc/lord-cassian-velerian");
    assert_eq!(plan.target_file, "campaigns/main/npcs/lord-cassian-velerian.md");
    let renamed = patch_frontmatter(updated, &plan.new_id, &rename).unwrap();
    assert!(matches!(&renamed[0], (k, Json::String(t)) if k == "id" && t == "main:npc/lord-cassian-velerian"));
    assert!(matches!(&renamed[1], (k, Json::String(t)) if k == "title" && t == "Lord Cassian Velerian"));
}

#[test]
fn entity_create_rejects_path_traversal() {
    let mut bad = input(None, vec![]);
    bad.campaign_id = "../../etc".to_string();
    bad.title = "x".to_string();
    let err = entity_id(&bad.campaign_id, &bad.kind, &bad.title).unwrap_err();
    assert!(err.contains("unsafe path"));
    assert!(entity_file(&bad.campaign_id, &bad.kind, &bad.title).unwrap_err().contains("unsafe path"));
}

#[test]
fn entity_create_rejects_bad_license() {
    let mut bad = input(Some("OGL"), vec![]);
    bad.title = "x".to_string();
    let id = entity_id(&bad.campaign_id, &bad.kind, &bad.title).unwrap();
    let err = new_frontmatter(&id, &bad).unwrap_err();
    assert!(err.contains("license_provenance"));
}

#[test]
fn patch_sets_fields_in_place() {
    let current = entries(vec![
        ("id", st("main:npc/a")),
        ("title", st("A")),
        ("type", st("npc")),
        ("campaign_id", st("main")),
        ("license_provenance", st("homebrew")),
        ("status", st("budding")),
    ]);
    let mut p = no_patch();
    p.lens = Some("catholic".to_string());
    p.license_provenance = Some("orc".to_string());
    let out = patch_frontmatter(current, "main:npc/b", &p).unwrap();
    assert_eq!(keys_of(&out), vec!["id", "title", "type", "campaign_id", "license_provenance", "status", "lens"]);
    assert!(matches!(&out[0].1, Json::String(t) if t == "main:npc/b"));
    assert!(matches!(&out[4].1, Json::String(t) if t == "orc"));
    assert!(matches!(&out[6].1, Json::String(t) if t == "catholic"));
}

#[test]
fn patch_extras_replace_the_extras() {
    let current = entries(vec![
        ("id", st("main:npc/a")),
        ("title", st("A")),
        ("campaign_id", st("main")),
        ("status", st("budding")),
        ("mood", st("grim")),
    ]);
    let mut p = no_patch();
    p.frontmatter = Some(entries(vec![("campaign_id", st("other")), ("id", st("x")), ("status", st("grown"))]));
    let out = patch_frontmatter(current, "main:npc/a", &p).unwrap();
    assert_eq!(keys_of(&out), vec!["id", "title", "campaign_id", "status"]);
    assert!(matches!(&out[0].1, Json::String(t) if t == "main:npc/a"));
    assert!(matches!(&out[2].1, Json::String(t) if t == "main"));
    assert!(matches!(&out[3].1, Json::String(t) if t == "grown"));
}

#[test]
fn patch_rejects_bad_license() {
    let mut p = no_patch();
    p.license_provenance = Some("OGL".to_string());
    assert_eq!(
        patch_frontmatter(vec![], "x", &p).unwrap_err(),
        "license_provenance `OGL` not in [orc, community-use, homebrew, proprietary]"
    );
    let out = patch_frontmatter(vec![], "x", &no_patch()).unwrap();
    assert_eq!(keys_of(&out), vec!["id"]);
    assert_eq!(patched_body(&no_patch(), "kept"), "kept");
}

#[test]
fn vault_events_pick_actions() {
    assert_eq!(vault_action(FsChange::Created, "/v/campaigns/main/npcs/a.md"), VaultAction::Ingest);
    assert_eq!(vault_action(FsChange::Modified, "/v/notes/b.markdown"), VaultAction::Ingest);
    assert_eq!(vault_action(FsChange::Removed, "/v/notes/b.md"), VaultAction::Delete);
    assert_eq!(vault_action(FsChange::Other, "/v/notes/b.md"), VaultAction::Ignore);
    assert_eq!(vault_action(FsChange::Created, "/v/notes/b.statblock.json"), VaultAction::Ignore);
    assert_eq!(vault_action(FsChange::Removed, "/v/index.db"), VaultAction::Ignore);
}

#[test]
fn stored_frontmatter_named_keys_first() {
    let extras = vec![
        ("tags".to_string(), Json::String("npc".to_string())),
        ("lens".to_string(), Json::String("override".to_string())),
        ("level".to_string(), Json::Bool(true)),
    ];
    let es = pf2e_companion::vault_write::stored_frontmatter(
        &Some("Elijah".to_string()),
        &None,
        &Some("lewisian".to_string()),
        extras,
    );
    let keys: Vec<&str> = es.iter().map(|(k, _)| k.as_str()).collect();
    assert_eq!(keys, vec!["title", "lens", "tags", "level"]);
    assert!(matches!(&es[0].1, Json::String(s) if s == "Elijah"));
    assert!(matches!(&es[1].1, Json::String(s) if s == "override"));
    let es = pf2e_companion::vault_write::stored_frontmatter(&None, &Some("npc".to_string()), &None, Vec::new());
    let keys: Vec<&str> = es.iter().map(|(k, _)| k.as_str()).collect();
    assert_eq!(keys, vec!["type"]);
}
