use pf2e_companion::json::{Json, JsonNumber};
use pf2e_companion::rules::{creature_xp_for_party_level_delta, validate_statblock, xp_budget, Difficulty};

fn s(x: &str) -> Json {
    Json::String(x.to_string())
}

fn n(x: i64) -> Json {
    Json::Number(JsonNumber::from_i64(x))
}

fn obj(entries: Vec<(&str, Json)>) -> Json {
    Json::Object(entries.into_iter().map(|(k, v)| (k.to_string(), v)).collect())
}

#[test]
fn xp_budget_canonical_party_of_4() {
    assert_eq!(xp_budget(4, Difficulty::Trivial), 40);
    assert_eq!(xp_budget(4, Difficulty::Low), 60);
    assert_eq!(xp_budget(4, Difficulty::Moderate), 80);
    assert_eq!(xp_budget(4, Difficulty::Severe), 120);
    assert_eq!(xp_budget(4, Difficulty::Extreme), 160);
}

#[test]
fn xp_budget_scales_with_party_size() {
    assert_eq!(xp_budget(5, Difficulty::Severe), 150);
    assert_eq!(xp_budget(3, Difficulty::Severe), 90);
    assert_eq!(xp_budget(6, Difficulty::Extreme), 240);
}

#[test]
fn xp_budget_matches_pf2e_gm_core() {
    assert_eq!(xp_budget(4, Difficulty::Trivial), 40);
    assert_eq!(xp_budget(4, Difficulty::Low), 60);
    assert_eq!(xp_budget(4, Difficulty::Moderate), 80);
    assert_eq!(xp_budget(4, Difficulty::Severe), 120);
    assert_eq!(xp_budget(4, Difficulty::Extreme), 160);
    assert_eq!(xp_budget(5, Difficulty::Severe), 150);
    assert_eq!(xp_budget(6, Difficulty::Extreme), 240);
}

#[test]
fn creature_xp_table() {
    assert_eq!(creature_xp_for_party_level_delta(0), Some(40));
    assert_eq!(creature_xp_for_party_level_delta(-1), Some(30));
    assert_eq!(creature_xp_for_party_level_delta(4), Some(160));
    assert_eq!(creature_xp_for_party_level_delta(-4), Some(10));
    assert_eq!(creature_xp_for_party_level_delta(5), None);
}

#[test]
fn creature_xp_far_below_party_is_ten() {
    assert_eq!(creature_xp_for_party_level_delta(-100), Some(10));
    assert_eq!(creature_xp_for_party_level_delta(-3), Some(15));
    assert_eq!(creature_xp_for_party_level_delta(1), Some(60));
    assert_eq!(creature_xp_for_party_level_delta(2), Some(80));
    assert_eq!(creature_xp_for_party_level_delta(3), Some(120));
}

#[test]
fn xp_budget_per_pc_figures() {
    assert_eq!(Difficulty::Trivial.per_pc_adjust(), 10);
    assert_eq!(Difficulty::Low.per_pc_adjust(), 20);
    assert_eq!(Difficulty::Moderate.per_pc_adjust(), 20);
    assert_eq!(Difficulty::Severe.per_pc_adjust(), 30);
    assert_eq!(Difficulty::Extreme.per_pc_adjust(), 40);
    assert_eq!(Difficulty::Severe.base_budget_for_party_of_4(), 120);
    // One PC more adds exactly the per-PC figure.
    assert_eq!(xp_budget(8, Difficulty::Low) - xp_budget(7, Difficulty::Low), 20);
    assert_eq!(xp_budget(1, Difficulty::Trivial), 10);
    assert_eq!(xp_budget(0, Difficulty::Low), -20);
}

#[test]
fn difficulty_names_round_trip() {
    for d in [Difficulty::Trivial, Difficulty::Low, Difficulty::Moderate, Difficulty::Severe, Difficulty::Extreme] {
        assert_eq!(Difficulty::from_name(d.name()), Some(d));
    }
    assert_eq!(Difficulty::from_name("Moderate"), None);
    assert_eq!(Difficulty::from_name("hard"), None);
}

#[test]
fn validate_minimal_statblock() {
    let ok = obj(vec![("name", s("Goblin")), ("level", n(-1)), ("type", s("creature"))]);
    let r = validate_statblock(&ok);
    assert!(r.valid, "errors: {:?}", r.errors);
}

#[test]
fn validate_rejects_bad_sanctification() {
    let bad = obj(vec![
        ("name", s("X")),
        ("level", n(1)),
        ("type", s("creature")),
        ("sanctification", s("lawful-good")),
    ]);
    let r = validate_statblock(&bad);
    assert!(!r.valid);
    assert!(r.errors.iter().any(|e| e.contains("sanctification")));
}

#[test]
fn validate_warns_on_missing_license() {
    let st = obj(vec![("name", s("X")), ("level", n(1)), ("type", s("creature"))]);
    let r = validate_statblock(&st);
    assert!(r.valid);
    assert!(!r.warnings.is_empty());
}

#[test]
fn validate_reports_each_error_in_order() {
    let st = obj(vec![
        ("level", n(30)),
        ("sanctification", s("lawful")),
        ("license_provenance", s("OGL")),
    ]);
    let r = validate_statblock(&st);
    assert!(!r.valid);
    assert_eq!(
        r.errors,
        vec![
            "missing required field `name`".to_string(),
            "missing required field `type`".to_string(),
            "level 30 outside the PF2e range -1..=25".to_string(),
            "sanctification `lawful` is not one of the 5 Remaster values".to_string(),
            "license_provenance `OGL` not in [orc, community-use, homebrew, proprietary]".to_string(),
        ]
    );
    assert!(r.warnings.is_empty());
}

#[test]
fn validate_negative_level_message() {
    let st = obj(vec![("name", s("X")), ("level", n(-2)), ("type", s("creature")), ("license_provenance", s("orc"))]);
    let r = validate_statblock(&st);
    assert_eq!(r.errors, vec!["level -2 outside the PF2e range -1..=25".to_string()]);
    assert!(r.warnings.is_empty());
}

#[test]
fn validate_non_object() {
    let r = validate_statblock(&Json::Array(vec![]));
    assert!(!r.valid);
    assert_eq!(r.errors, vec!["statblock must be a JSON object".to_string()]);
    assert!(r.warnings.is_empty());
}

#[test]
fn validate_accepts_every_sanctification_value() {
    for v in ["holy", "unholy", "both", "none", "can-choose-holy", "can-choose-unholy"] {
        let st = obj(vec![
            ("name", s("X")),
            ("level", n(25)),
            ("type", s("creature")),
            ("sanctification", s(v)),
            ("license_provenance", s("homebrew")),
        ]);
        let r = validate_statblock(&st);
        assert!(r.valid, "{v}: {:?}", r.errors);
    }
}

#[test]
fn validate_missing_license_warning_text() {
    let st = obj(vec![("name", s("X")), ("level", s("five")), ("type", s("creature"))]);
    let r = validate_statblock(&st);
    assert!(r.valid);
    assert_eq!(r.warnings, vec!["no license_provenance — defaulting to homebrew on import".to_string()]);
}
