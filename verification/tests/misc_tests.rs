use pf2e_companion::commands::{alias_lookup_terms, creature_xp, like_containing, lens_or_default, list_lenses, miracle_lookup_terms, xp_budget};
use pf2e_companion::markdown::strip_markdown;
use pf2e_companion::rules::Difficulty;

#[test]
fn strip_markdown_keeps_text_drops_syntax() {
    let md = "# Lord Cassian\n\n**Bold** and `code`. [link](http://x)\n";
    let plain = strip_markdown(md);
    assert!(plain.contains("Lord Cassian"));
    assert!(plain.contains("Bold"));
    assert!(plain.contains("code"));
    assert!(!plain.contains("**"));
}

#[test]
fn strip_markdown_spacing() {
    assert_eq!(strip_markdown(""), "");
    assert_eq!(strip_markdown("a\nb"), "a b");
    assert_eq!(strip_markdown("# T\n\npara"), "T para");
}

#[test]
fn xp_budget_command_range() {
    let r = xp_budget(4, Difficulty::Moderate).unwrap();
    assert_eq!(r.xp_budget, 80);
    assert_eq!(r.per_pc_adjust, 20);
    assert_eq!(r.base_for_party_of_4, 80);
    assert_eq!(xp_budget(0, Difficulty::Low).unwrap_err(), "party_size 0 outside the supported 1..=12 range");
    assert!(xp_budget(13, Difficulty::Low).is_err());
    assert_eq!(creature_xp(2), Ok(Some(80)));
    assert_eq!(creature_xp(9), Ok(None));
}

#[test]
fn lookup_terms() {
    assert_eq!(alias_lookup_terms("  Magic Missile "), Some(("Magic Missile".to_string(), "Magic Missile%".to_string())));
    assert_eq!(alias_lookup_terms("   "), None);
    assert_eq!(miracle_lookup_terms("Mt 14:25"), Some(("Mt 14:25".to_string(), "%Mt 14:25%".to_string())));
    assert_eq!(miracle_lookup_terms(""), None);
    assert_eq!(like_containing("5000"), "%5000%");
    assert_eq!(lens_or_default(None), "lewisian");
    assert_eq!(lens_or_default(Some("catholic".to_string())), "catholic");
}

#[test]
fn five_lenses() {
    let lenses = list_lenses().unwrap();
    let ids: Vec<&str> = lenses.iter().map(|l| l.id).collect();
    assert_eq!(ids, vec!["lewisian", "catholic", "reformed", "pentecostal", "orthodox"]);
    assert_eq!(lenses[0].label, "Lewisian (mere Christianity)");
    assert!(lenses[4].description.contains("Aerial Toll Houses"));
}
