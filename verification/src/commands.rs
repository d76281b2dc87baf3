//! What the IPC commands decide before and after their queries: budgets,
//! lens defaults, lookup patterns, the lens manifest, and the shapes of
//! their rows.

use vstd::prelude::*;
use vstd::string::StringExecFns;
use crate::json::Json;
use crate::rules::{
    Difficulty, ValidationResult, base_spec, creature_xp_for_party_level_delta, creature_xp_spec,
    per_pc_spec, statblock_errors, statblock_warnings, texts, xp_budget_spec,
};
use crate::text::{chars_of, nat_decimal, opt_view, string_from_chars, trim_bounds, trim_spec, u64_to_string};

verus! {

/// An entity in a listing; `kind` is its type.
#[derive(Debug)]
pub struct EntitySummary {
    pub id: String,
    pub title: String,
    pub kind: String,
    pub lens: Option<String>,
}

/// A legacy/Remaster name pair.
#[derive(Debug)]
pub struct AliasHit {
    pub legacy_name: String,
    pub remaster_name: String,
    pub category: String,
    pub notes: Option<String>,
}

/// A biblical miracle and the spell that models it.
#[derive(Debug)]
pub struct MiracleHit {
    pub miracle: String,
    pub reference: String,
    pub book: String,
    pub spell_name: String,
    pub tradition: Option<String>,
    pub sanctification: Option<String>,
    pub notes: Option<String>,
}

/// An encounter budget with the figures it was built from.
#[derive(Debug)]
pub struct XpBudgetResult {
    pub party_size: u8,
    pub difficulty: Difficulty,
    pub xp_budget: i32,
    pub per_pc_adjust: i32,
    pub base_for_party_of_4: i32,
}

/// The encounter budget for a party of 1 to 12.
pub fn xp_budget(party_size: u8, difficulty: Difficulty) -> (r: Result<XpBudgetResult, String>)
    ensures
        (1 <= party_size <= 12) <==> r is Ok,
        r matches Ok(x) ==> x.party_size == party_size && x.difficulty == difficulty && x.xp_budget
            == xp_budget_spec(party_size as int, difficulty) && x.per_pc_adjust == per_pc_spec(difficulty)
            && x.base_for_party_of_4 == base_spec(difficulty),
        r matches Err(e) ==> e@ == "party_size "@ + nat_decimal(party_size as nat)
            + " outside the supported 1..=12 range"@,
{
    if party_size == 0 || party_size > 12 {
        let mut m = "party_size ".to_owned();
        let d = u64_to_string(party_size as u64);
        m.append(d.as_str());
        m.append(" outside the supported 1..=12 range");
        return Err(m);
    }
    Ok(XpBudgetResult {
        party_size,
        difficulty,
        xp_budget: crate::rules::xp_budget(party_size, difficulty),
        per_pc_adjust: difficulty.per_pc_adjust(),
        base_for_party_of_4: difficulty.base_budget_for_party_of_4(),
    })
}

/// Per-creature XP cost relative to party level; never fails.
pub fn creature_xp(party_level_delta: i32) -> (r: Result<Option<i32>, String>)
    ensures
        r matches Ok(o) && match o {
            Some(x) => creature_xp_spec(party_level_delta as int) == Some(x as int),
            None => creature_xp_spec(party_level_delta as int) is None,
        },
{
    Ok(creature_xp_for_party_level_delta(party_level_delta))
}

/// Check a statblock; never fails.
pub fn validate_statblock(statblock: Json) -> (r: Result<ValidationResult, String>)
    ensures
        r matches Ok(v) && texts(v.errors@) == statblock_errors(statblock@) && texts(v.warnings@)
            == statblock_warnings(statblock@) && v.valid == (v.errors@.len() == 0),
{
    Ok(crate::rules::validate_statblock(&statblock))
}

/// The lens a query runs in: the one given, else Lewisian.
pub fn lens_or_default(lens: Option<String>) -> (r: String)
    ensures
        r@ == match lens {
            Some(l) => l@,
            None => "lewisian"@,
        },
{
    match lens {
        Some(l) => l,
        None => "lewisian".to_owned(),
    }
}

/// The name to look up, trimmed, and the pattern for names starting with
/// it; `None` when nothing is left after trimming.
pub fn alias_lookup_terms(name: &str) -> (r: Option<(String, String)>)
    ensures
        match r {
            Some((t, p)) => trim_spec(name@).len() > 0 && t@ == trim_spec(name@) && p@ == trim_spec(name@)
                + "%"@,
            None => trim_spec(name@).len() == 0,
        },
{
    let v = chars_of(name);
    let (a, b) = trim_bounds(v.as_slice(), 0, v.len());
    assert(v@.subrange(0, v@.len() as int) =~= v@);
    if a == b {
        return None;
    }
    let t = string_from_chars(&v[a..b]);
    let mut p = t.clone();
    p.append("%");
    Some((t, p))
}

/// `%<s>%`: a LIKE pattern for texts containing `s`.
pub fn like_containing(s: &str) -> (r: String)
    ensures
        r@ == "%"@ + s@ + "%"@,
{
    let mut p = "%".to_owned();
    p.append(s);
    p.append("%");
    p
}

/// The query, trimmed, and the pattern for texts containing it; `None`
/// when nothing is left after trimming.
pub fn miracle_lookup_terms(query: &str) -> (r: Option<(String, String)>)
    ensures
        match r {
            Some((t, p)) => trim_spec(query@).len() > 0 && t@ == trim_spec(query@) && p@ == "%"@
                + trim_spec(query@) + "%"@,
            None => trim_spec(query@).len() == 0,
        },
{
    let v = chars_of(query);
    let (a, b) = trim_bounds(v.as_slice(), 0, v.len());
    assert(v@.subrange(0, v@.len() as int) =~= v@);
    if a == b {
        return None;
    }
    let t = string_from_chars(&v[a..b]);
    let p = like_containing(t.as_str());
    Some((t, p))
}

/// One lens pack: its id, label and a one-line description.
#[derive(Debug)]
pub struct LensManifest {
    pub id: &'static str,
    pub label: &'static str,
    pub description: &'static str,
}

pub open spec fn lens_ids() -> Seq<Seq<char>> {
    seq!["lewisian"@, "catholic"@, "reformed"@, "pentecostal"@, "orthodox"@]
}

pub open spec fn lens_labels() -> Seq<Seq<char>> {
    seq!["Lewisian (mere Christianity)"@, "Catholic"@, "Reformed"@, "Pentecostal"@, "Orthodox"@]
}

pub open spec fn lens_descriptions() -> Seq<Seq<char>> {
    seq![
        "Default. Charism+Lewisian magic-theology hybrid; deferred denominational specifics."@,
        "73-book canon (deuterocanon); 9-choir angels; saint-attached Champion patrons; Thaumaturge implements as relics."@,
        "66-book canon; cessationist tilt; covenant theology scaffold; Word-as-sword."@,
        "66-book canon; spiritual-warfare frame; healing/tongues/prophecy charisms."@,
        "LXX+ canon; theosis; icons; Aerial Toll Houses as a level-15+ post-mortem dungeon."@,
    ]
}

/// The five lens packs, Lewisian (the default) first.
pub fn list_lenses() -> (r: Result<Vec<LensManifest>, String>)
    ensures
        r matches Ok(v) && v@.len() == 5 && forall|i: int|
            0 <= i < 5 ==> (#[trigger] v@[i]).id@ == lens_ids()[i] && v@[i].label@ == lens_labels()[i]
                && v@[i].description@ == lens_descriptions()[i],
{
    Ok(vec![
        LensManifest {
            id: "lewisian",
            label: "Lewisian (mere Christianity)",
            description: "Default. Charism+Lewisian magic-theology hybrid; deferred denominational specifics.",
        },
        LensManifest {
            id: "catholic",
            label: "Catholic",
            description: "73-book canon (deuterocanon); 9-choir angels; saint-attached Champion patrons; Thaumaturge implements as relics.",
        },
        LensManifest {
            id: "reformed",
            label: "Reformed",
            description: "66-book canon; cessationist tilt; covenant theology scaffold; Word-as-sword.",
        },
        LensManifest {
            id: "pentecostal",
            label: "Pentecostal",
            description: "66-book canon; spiritual-warfare frame; healing/tongues/prophecy charisms.",
        },
        LensManifest {
            id: "orthodox",
            label: "Orthodox",
            description: "LXX+ canon; theosis; icons; Aerial Toll Houses as a level-15+ post-mortem dungeon.",
        },
    ])
}

} // verus!
