use pf2e_companion::content::{plan_bundled_entry, simple_hash, split_frontmatter};
use pf2e_companion::vault;
use pf2e_companion::vault::{is_markdown, plan_vault_entity, Frontmatter};
use pf2e_companion::vault_write::entity_file_contents;

#[test]
fn content_split_frontmatter_basic() {
    let (fm, body) = split_frontmatter("---\ntitle: A\n---\nbody\n");
    assert!(fm.contains("title: A"));
    assert!(body.starts_with("body"));
}

#[test]
fn vault_split_frontmatter_basic() {
    let s = "---\ntitle: Foo\ntype: npc\n---\nbody here\nmore\n";
    let (fm, body) = vault::split_frontmatter(s);
    assert!(fm.contains("title: Foo"));
    assert_eq!(body.trim(), "body here\nmore");
}

#[test]
fn split_frontmatter_missing_returns_body_only() {
    let s = "no frontmatter here\n";
    let (fm, body) = vault::split_frontmatter(s);
    assert_eq!(fm, "");
    assert!(body.contains("no frontmatter"));
}

#[test]
fn split_frontmatter_exact_parts() {
    let (fm, body) = split_frontmatter("\u{FEFF}---\r\n\nid: x\ntitle: Y\n---\n\n\nText\n");
    assert_eq!(fm, "id: x\ntitle: Y");
    assert_eq!(body, "Text\n");
}

#[test]
fn split_frontmatter_unclosed_or_absent() {
    // No closing line: no frontmatter, and both variants drop the marks.
    assert_eq!(split_frontmatter("\u{FEFF}---\ntitle: A\n"), ("", "---\ntitle: A\n"));
    assert_eq!(vault::split_frontmatter("\u{FEFF}---\ntitle: A\n"), ("", "---\ntitle: A\n"));
    assert_eq!(split_frontmatter("\u{FEFF}plain"), ("", "plain"));
    assert_eq!(vault::split_frontmatter("\u{FEFF}plain"), ("", "\u{FEFF}plain"));
    assert_eq!(split_frontmatter(""), ("", ""));
}

#[test]
fn written_entity_reads_back() {
    let yaml = "id: main:npc/x\ntitle: X\n";
    let text = entity_file_contents(yaml, "Body line.  \n\n");
    assert_eq!(text, "---\nid: main:npc/x\ntitle: X\n---\n\nBody line.\n");
    let (fm, body) = split_frontmatter(&text);
    assert_eq!(fm, "id: main:npc/x\ntitle: X");
    assert_eq!(body, "Body line.\n");
}

#[test]
fn hash_is_sixteen_hex_digits() {
    let h = simple_hash("hello");
    assert_eq!(h.len(), 16);
    assert!(h.chars().all(|c| c.is_ascii_hexdigit() && !c.is_ascii_uppercase()));
    assert_eq!(simple_hash("hello"), h);
    assert_ne!(simple_hash("hello!"), h);
}

#[test]
fn markdown_paths() {
    assert!(is_markdown("/vault/campaigns/main/npcs/x.md"));
    assert!(is_markdown("notes.markdown"));
    assert!(!is_markdown("x.md.bak"));
    assert!(!is_markdown(".md"));
    assert!(is_markdown("dir.md/"));
    assert!(!is_markdown("README"));
    assert!(!is_markdown("x.MD"));
    assert!(!is_markdown(".."));
}

fn fm(id: Option<&str>, title: Option<&str>) -> Frontmatter {
    Frontmatter {
        id: id.map(str::to_string),
        title: title.map(str::to_string),
        entity_type: None,
        lens: None,
        license_provenance: None,
        campaign_id: None,
    }
}

#[test]
fn vault_entity_defaults() {
    let e = plan_vault_entity(&fm(None, Some("Lord Cassian")), "campaigns/main/npcs/x.md");
    assert_eq!(e.id, "lord-cassian");
    assert_eq!(e.entity_type, "note");
    assert_eq!(e.campaign_id, "_default");
    assert_eq!(e.license_provenance, "homebrew");
    assert_eq!(e.lens, None);
    let e = plan_vault_entity(&fm(None, None), "campaigns/main/npcs/x.md");
    assert_eq!(e.id, "campaigns-main-npcs-x-md");
    let e = plan_vault_entity(&fm(Some("Main:NPC/Lord"), Some("ignored")), "p.md");
    assert_eq!(e.id, "main-npc-lord");
}

#[test]
fn bundled_entry_defaults() {
    let e = plan_bundled_entry(&fm(None, Some("Heaven (the Throne Room)")), "lewisian", Some("heaven"), "lewisian/heaven.md");
    assert_eq!(e.id, "lewisian:heaven-the-throne-room");
    assert_eq!(e.lens, "lewisian");
    assert_eq!(e.entity_type, "note");
    assert_eq!(e.license_provenance, "homebrew");
    assert_eq!(e.file_path, "bundled:lewisian/heaven.md");
    let e = plan_bundled_entry(&fm(None, None), "catholic", Some("saint-jerome"), "x");
    assert_eq!(e.id, "catholic:saint-jerome");
    let e = plan_bundled_entry(&fm(None, None), "catholic", None, "x");
    assert_eq!(e.id, "catholic:entry");
    let e = plan_bundled_entry(&fm(Some("custom:id"), None), "catholic", None, "x");
    assert_eq!(e.id, "custom:id");
}
