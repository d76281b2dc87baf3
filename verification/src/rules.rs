//! PF2e Remaster rules helpers: encounter XP budgets (GM Core p.49),
//! creature XP by level difference, and a structural statblock check.

use vstd::prelude::*;
use vstd::string::StringExecFns;
use crate::json::{Json, JsonV, json_get, json_as_i64, json_as_str};
use crate::text::{int_decimal, i64_to_string, str_eq};

verus! {

/// Encounter difficulty band (Remaster names), from easiest to hardest.
#[derive(Debug, Clone, Copy, PartialEq, Eq, Structural)]
pub enum Difficulty {
    Trivial,
    Low,
    Moderate,
    Severe,
    Extreme,
}

/// Position of a band from easiest (0) to hardest (4).
pub open spec fn difficulty_rank(d: Difficulty) -> int {
    match d {
        Difficulty::Trivial => 0,
        Difficulty::Low => 1,
        Difficulty::Moderate => 2,
        Difficulty::Severe => 3,
        Difficulty::Extreme => 4,
    }
}

/// XP added (or removed) per PC away from a party of four.
pub open spec fn per_pc_spec(d: Difficulty) -> int {
    match d {
        Difficulty::Trivial => 10,
        Difficulty::Low => 20,
        Difficulty::Moderate => 20,
        Difficulty::Severe => 30,
        Difficulty::Extreme => 40,
    }
}

/// The budget for a party of four.
pub open spec fn base_spec(d: Difficulty) -> int {
    match d {
        Difficulty::Trivial => 40,
        Difficulty::Low => 60,
        Difficulty::Moderate => 80,
        Difficulty::Severe => 120,
        Difficulty::Extreme => 160,
    }
}

/// The encounter XP budget: the four-PC budget, moved by the per-PC
/// adjustment for each PC above or below four.
pub open spec fn xp_budget_spec(party_size: int, d: Difficulty) -> int {
    base_spec(d) + (party_size - 4) * per_pc_spec(d)
}

/// The lower-case name of a band, as the tools and the UI spell it.
pub open spec fn difficulty_name(d: Difficulty) -> Seq<char> {
    match d {
        Difficulty::Trivial => "trivial"@,
        Difficulty::Low => "low"@,
        Difficulty::Moderate => "moderate"@,
        Difficulty::Severe => "severe"@,
        Difficulty::Extreme => "extreme"@,
    }
}

/// The band named exactly `s`, if any.
pub open spec fn parse_difficulty(s: Seq<char>) -> Option<Difficulty> {
    if s == "trivial"@ {
        Some(Difficulty::Trivial)
    } else if s == "low"@ {
        Some(Difficulty::Low)
    } else if s == "moderate"@ {
        Some(Difficulty::Moderate)
    } else if s == "severe"@ {
        Some(Difficulty::Severe)
    } else if s == "extreme"@ {
        Some(Difficulty::Extreme)
    } else {
        None
    }
}

impl Difficulty {
    /// Per-PC adjustment when scaling away from the canonical 4-PC budget:
    /// 10 for Trivial, 20 for Low and Moderate, 30 for Severe, 40 for Extreme.
    pub fn per_pc_adjust(self) -> (r: i32)
        ensures
            r == per_pc_spec(self),
    {
        match self {
            Difficulty::Trivial => 10,
            Difficulty::Low => 20,
            Difficulty::Moderate => 20,
            Difficulty::Severe => 30,
            Difficulty::Extreme => 40,
        }
    }

    /// The budget for a party of four PCs.
    pub fn base_budget_for_party_of_4(self) -> (r: i32)
        ensures
            r == base_spec(self),
    {
        match self {
            Difficulty::Trivial => 40,
            Difficulty::Low => 60,
            Difficulty::Moderate => 80,
            Difficulty::Severe => 120,
            Difficulty::Extreme => 160,
        }
    }

    /// The lower-case name of the band.
    pub fn name(self) -> (r: &'static str)
        ensures
            r@ == difficulty_name(self),
    {
        match self {
            Difficulty::Trivial => "trivial",
            Difficulty::Low => "low",
            Difficulty::Moderate => "moderate",
            Difficulty::Severe => "severe",
            Difficulty::Extreme => "extreme",
        }
    }

    /// The band whose lower-case name is exactly `s`.
    pub fn from_name(s: &str) -> (r: Option<Difficulty>)
        ensures
            r == parse_difficulty(s@),
    {
        if str_eq(s, "trivial") {
            Some(Difficulty::Trivial)
        } else if str_eq(s, "low") {
            Some(Difficulty::Low)
        } else if str_eq(s, "moderate") {
            Some(Difficulty::Moderate)
        } else if str_eq(s, "severe") {
            Some(Difficulty::Severe)
        } else if str_eq(s, "extreme") {
            Some(Difficulty::Extreme)
        } else {
            None
        }
    }
}

/// Compute the XP budget for an encounter.
pub fn xp_budget(party_size: u8, difficulty: Difficulty) -> (r: i32)
    ensures
        r == xp_budget_spec(party_size as int, difficulty),
{
    let base = difficulty.base_budget_for_party_of_4();
    let delta: i32 = (party_size as i32) - 4;
    let per = difficulty.per_pc_adjust();
    assert(-4 * 40 <= delta * per <= 251 * 40) by (nonlinear_arith)
        requires
            -4 <= delta <= 251,
            10 <= per <= 40,
    ;
    base + delta * per
}

/// The XP a creature is worth, by its level minus the party's level
/// (GM Core p.49); `None` above +4.
pub open spec fn creature_xp_spec(delta: int) -> Option<int> {
    if delta <= -4 {
        Some(10)
    } else if delta == -3 {
        Some(15)
    } else if delta == -2 {
        Some(20)
    } else if delta == -1 {
        Some(30)
    } else if delta == 0 {
        Some(40)
    } else if delta == 1 {
        Some(60)
    } else if delta == 2 {
        Some(80)
    } else if delta == 3 {
        Some(120)
    } else if delta == 4 {
        Some(160)
    } else {
        None
    }
}

/// Creature XP cost relative to party level.
pub fn creature_xp_for_party_level_delta(delta: i32) -> (r: Option<i32>)
    ensures
        match r {
            Some(x) => creature_xp_spec(delta as int) == Some(x as int),
            None => creature_xp_spec(delta as int) is None,
        },
{
    if delta <= -4 {
        Some(10)
    } else if delta == -3 {
        Some(15)
    } else if delta == -2 {
        Some(20)
    } else if delta == -1 {
        Some(30)
    } else if delta == 0 {
        Some(40)
    } else if delta == 1 {
        Some(60)
    } else if delta == 2 {
        Some(80)
    } else if delta == 3 {
        Some(120)
    } else if delta == 4 {
        Some(160)
    } else {
        None
    }
}

/// A budget for four PCs is the band's base budget.
pub proof fn law_party_of_four_is_base(d: Difficulty)
    ensures
        xp_budget_spec(4, d) == base_spec(d),
{
}

/// Each PC added to the party adds exactly the band's per-PC adjustment.
pub proof fn law_budget_linear_in_party(n: int, d: Difficulty)
    ensures
        xp_budget_spec(n + 1, d) == xp_budget_spec(n, d) + per_pc_spec(d),
{
    assert((n + 1 - 4) * per_pc_spec(d) == (n - 4) * per_pc_spec(d) + per_pc_spec(d)) by (nonlinear_arith);
}

/// A larger party never gets a smaller budget.
pub proof fn law_budget_grows_with_party(m: int, n: int, d: Difficulty)
    requires
        m <= n,
    ensures
        xp_budget_spec(m, d) <= xp_budget_spec(n, d),
{
    let p = per_pc_spec(d);
    assert(p > 0);
    assert((m - 4) * p <= (n - 4) * p) by (nonlinear_arith)
        requires
            m <= n,
            p > 0,
    ;
}

/// For parties of three or more, a harder band always has a strictly
/// larger budget.
pub proof fn law_harder_band_bigger_budget(n: int, a: Difficulty, b: Difficulty)
    requires
        n >= 3,
        difficulty_rank(a) < difficulty_rank(b),
    ensures
        xp_budget_spec(n, a) < xp_budget_spec(n, b),
{
    let pa = per_pc_spec(a);
    let pb = per_pc_spec(b);
    assert(pa <= pb);
    assert(base_spec(b) - base_spec(a) >= pb - pa);
    assert((n - 4) * pa <= (n - 4) * pb + (pb - pa)) by (nonlinear_arith)
        requires
            n >= 3,
            pa <= pb,
    ;
    assert(base_spec(b) - base_spec(a) > pb - pa || (base_spec(b) - base_spec(a) >= pb - pa && n >= 3));
    assert((n - 4) * pb - (n - 4) * pa >= pa - pb) by (nonlinear_arith)
        requires
            n >= 3,
            pa <= pb,
    ;
    assert(base_spec(b) - base_spec(a) > pb - pa);
}

/// Creature XP never falls as the creature's level rises, wherever the
/// table is defined.
pub proof fn law_creature_xp_monotone(a: int, b: int)
    requires
        a <= b <= 4,
    ensures
        creature_xp_spec(a) is Some,
        creature_xp_spec(b) is Some,
        creature_xp_spec(a)->0 <= creature_xp_spec(b)->0,
{
}

/// Each band's name reads back as that band.
pub proof fn law_difficulty_name_round_trip(d: Difficulty)
    ensures
        parse_difficulty(difficulty_name(d)) == Some(d),
{
    reveal_strlit("trivial");
    reveal_strlit("low");
    reveal_strlit("moderate");
    reveal_strlit("severe");
    reveal_strlit("extreme");
    assert("low"@.len() != "trivial"@.len());
    assert("moderate"@.len() != "trivial"@.len() && "moderate"@.len() != "low"@.len());
    assert("severe"@.len() != "trivial"@.len() && "severe"@.len() != "low"@.len()
        && "severe"@.len() != "moderate"@.len());
    assert("extreme"@[0] != "trivial"@[0] && "extreme"@.len() != "low"@.len()
        && "extreme"@.len() != "moderate"@.len() && "extreme"@.len() != "severe"@.len());
}

/// Only a band's own name reads as that band.
pub proof fn law_difficulty_parse_exact(s: Seq<char>, d: Difficulty)
    requires
        parse_difficulty(s) == Some(d),
    ensures
        s == difficulty_name(d),
{
    reveal_strlit("trivial");
    reveal_strlit("low");
    reveal_strlit("moderate");
    reveal_strlit("severe");
    reveal_strlit("extreme");
}

/// The outcome of a statblock check: valid exactly when there is no error.
#[derive(Debug)]
pub struct ValidationResult {
    pub valid: bool,
    pub errors: Vec<String>,
    pub warnings: Vec<String>,
}

/// The texts of a list of strings.
pub open spec fn texts(v: Seq<String>) -> Seq<Seq<char>> {
    v.map_values(|s: String| s@)
}

pub open spec fn one_if(b: bool, m: Seq<char>) -> Seq<Seq<char>> {
    if b {
        seq![m]
    } else {
        Seq::empty()
    }
}

pub open spec fn missing_field_msg(k: Seq<char>) -> Seq<char> {
    "missing required field `"@ + k + "`"@
}

pub open spec fn is_sanctification(s: Seq<char>) -> bool {
    s == "holy"@ || s == "unholy"@ || s == "both"@ || s == "none"@ || s == "can-choose-holy"@
        || s == "can-choose-unholy"@
}

pub open spec fn is_license_provenance(s: Seq<char>) -> bool {
    s == "orc"@ || s == "community-use"@ || s == "homebrew"@ || s == "proprietary"@
}

/// `level`, when present as an integer.
pub open spec fn level_of(v: JsonV) -> Option<i64> {
    match json_get(v, "level"@) {
        Some(x) => json_as_i64(x),
        None => None,
    }
}

/// The string under `k`, when present as a string.
pub open spec fn str_field(v: JsonV, k: Seq<char>) -> Option<Seq<char>> {
    match json_get(v, k) {
        Some(x) => json_as_str(x),
        None => None,
    }
}

pub open spec fn level_errors(v: JsonV) -> Seq<Seq<char>> {
    match level_of(v) {
        Some(l) => one_if(
            !(-1 <= l && l <= 25),
            "level "@ + int_decimal(l as int) + " outside the PF2e range -1..=25"@,
        ),
        None => Seq::empty(),
    }
}

pub open spec fn sanctification_errors(v: JsonV) -> Seq<Seq<char>> {
    match str_field(v, "sanctification"@) {
        Some(s) => one_if(
            !is_sanctification(s),
            "sanctification `"@ + s + "` is not one of the 5 Remaster values"@,
        ),
        None => Seq::empty(),
    }
}

pub open spec fn license_errors(v: JsonV) -> Seq<Seq<char>> {
    match str_field(v, "license_provenance"@) {
        Some(s) => one_if(
            !is_license_provenance(s),
            "license_provenance `"@ + s + "` not in [orc, community-use, homebrew, proprietary]"@,
        ),
        None => Seq::empty(),
    }
}

/// The errors of a statblock check, in the order they are reported.
pub open spec fn statblock_errors(v: JsonV) -> Seq<Seq<char>> {
    match v {
        JsonV::Object(_) => one_if(json_get(v, "name"@) is None, missing_field_msg("name"@))
            + one_if(json_get(v, "level"@) is None, missing_field_msg("level"@))
            + one_if(json_get(v, "type"@) is None, missing_field_msg("type"@))
            + level_errors(v) + sanctification_errors(v) + license_errors(v),
        _ => seq!["statblock must be a JSON object"@],
    }
}

/// The warnings of a statblock check.
pub open spec fn statblock_warnings(v: JsonV) -> Seq<Seq<char>> {
    match v {
        JsonV::Object(_) => one_if(
            str_field(v, "license_provenance"@) is None,
            "no license_provenance — defaulting to homebrew on import"@,
        ),
        _ => Seq::empty(),
    }
}

fn push_missing(errors: &mut Vec<String>, value: &Json, key: &str)
    ensures
        texts(final(errors)@) == texts(old(errors)@) + one_if(
            json_get(value@, key@) is None,
            missing_field_msg(key@),
        ),
{
    if value.get(key).is_none() {
        let mut m = "missing required field `".to_owned();
        m.append(key);
        m.append("`");
        errors.push(m);
        assert(texts(errors@) =~= texts(old(errors)@) + one_if(true, missing_field_msg(key@)));
    } else {
        assert(texts(errors@) =~= texts(old(errors)@) + one_if(false, missing_field_msg(key@)));
    }
}

fn str_in(s: &str, options: &[&str]) -> (r: bool)
    ensures
        r == exists|i: int| 0 <= i < options@.len() && s@ == (#[trigger] options@[i])@,
{
    let mut i: usize = 0;
    while i < options.len()
        invariant
            i <= options@.len(),
            forall|j: int| 0 <= j < i ==> s@ != (#[trigger] options@[j])@,
        decreases options@.len() - i,
    {
        if str_eq(s, options[i]) {
            return true;
        }
        i = i + 1;
    }
    false
}

/// Lightweight statblock sanity check: required fields, the PF2e level
/// range, the Remaster sanctification values and the license provenance.
pub fn validate_statblock(value: &Json) -> (r: ValidationResult)
    ensures
        texts(r.errors@) == statblock_errors(value@),
        texts(r.warnings@) == statblock_warnings(value@),
        r.valid == (r.errors@.len() == 0),
{
    let mut errors: Vec<String> = Vec::new();
    let mut warnings: Vec<String> = Vec::new();
    if !value.is_object() {
        errors.push("statblock must be a JSON object".to_owned());
        assert(texts(errors@) =~= seq!["statblock must be a JSON object"@]);
        assert(texts(warnings@) =~= Seq::<Seq<char>>::empty());
        return ValidationResult { valid: false, errors, warnings };
    }
    proof {
        assert(texts(errors@) =~= Seq::<Seq<char>>::empty());
    }
    push_missing(&mut errors, value, "name");
    push_missing(&mut errors, value, "level");
    push_missing(&mut errors, value, "type");
    let ghost before_level = texts(errors@);
    match value.get("level") {
        Some(l) => match l.as_i64() {
            Some(level) => {
                if !(-1 <= level && level <= 25) {
                    let mut m = "level ".to_owned();
                    let digits = i64_to_string(level);
                    m.append(digits.as_str());
                    m.append(" outside the PF2e range -1..=25");
                    errors.push(m);
                }
            },
            None => {},
        },
        None => {},
    }
    assert(texts(errors@) =~= before_level + level_errors(value@));
    let ghost before_sanct = texts(errors@);
    match value.get("sanctification") {
        Some(x) => match x.as_str() {
            Some(s) => {
                let ok = str_in(
                    s,
                    &["holy", "unholy", "both", "none", "can-choose-holy", "can-choose-unholy"],
                );
                if !ok {
                    let mut m = "sanctification `".to_owned();
                    m.append(s);
                    m.append("` is not one of the 5 Remaster values");
                    errors.push(m);
                }
            },
            None => {},
        },
        None => {},
    }
    assert(texts(errors@) =~= before_sanct + sanctification_errors(value@));
    let ghost before_license = texts(errors@);
    match value.get("license_provenance") {
        Some(x) => match x.as_str() {
            Some(s) => {
                let ok = str_in(s, &["orc", "community-use", "homebrew", "proprietary"]);
                if !ok {
                    let mut m = "license_provenance `".to_owned();
                    m.append(s);
                    m.append("` not in [orc, community-use, homebrew, proprietary]");
                    errors.push(m);
                }
            },
            None => {
                warnings.push("no license_provenance — defaulting to homebrew on import".to_owned());
            },
        },
        None => {
            warnings.push("no license_provenance — defaulting to homebrew on import".to_owned());
        },
    }
    assert(texts(errors@) =~= before_license + license_errors(value@));
    assert(texts(warnings@) =~= statblock_warnings(value@));
    let valid = errors.len() == 0;
    ValidationResult { valid, errors, warnings }
}

} // verus!
