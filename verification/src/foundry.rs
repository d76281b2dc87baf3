//! Foundry VTT pf2e records: licence postures, what one record becomes,
//! and the import report.

use vstd::prelude::*;
use vstd::string::StringExecFns;
use crate::json::{Json, JsonV, jobj, jstr, json_get, json_as_str};
use crate::text::{slug, slug_spec, str_eq};
use crate::vault::{extension_spec, has_extension};

verus! {

/// Licence under which an imported pack is used.
#[derive(Debug, Clone, Copy, PartialEq, Eq, Structural)]
pub enum LicensePosture {
    Orc,
    CommunityUse,
    Homebrew,
    Proprietary,
}

pub open spec fn posture_name(p: LicensePosture) -> Seq<char> {
    match p {
        LicensePosture::Orc => "orc"@,
        LicensePosture::CommunityUse => "community-use"@,
        LicensePosture::Homebrew => "homebrew"@,
        LicensePosture::Proprietary => "proprietary"@,
    }
}

/// The posture named exactly `s`, or the error naming it.
pub open spec fn parse_posture(s: Seq<char>) -> Result<LicensePosture, Seq<char>> {
    if s == "orc"@ {
        Ok(LicensePosture::Orc)
    } else if s == "community-use"@ {
        Ok(LicensePosture::CommunityUse)
    } else if s == "homebrew"@ {
        Ok(LicensePosture::Homebrew)
    } else if s == "proprietary"@ {
        Ok(LicensePosture::Proprietary)
    } else {
        Err("unknown license `"@ + s + "`"@)
    }
}

impl LicensePosture {
    /// The posture's name as stored.
    pub fn as_str(self) -> (r: &'static str)
        ensures
            r@ == posture_name(self),
    {
        match self {
            LicensePosture::Orc => "orc",
            LicensePosture::CommunityUse => "community-use",
            LicensePosture::Homebrew => "homebrew",
            LicensePosture::Proprietary => "proprietary",
        }
    }

    /// The posture a user named.
    pub fn parse(s: &str) -> (r: Result<LicensePosture, String>)
        ensures
            match r {
                Ok(p) => parse_posture(s@) == Ok::<LicensePosture, Seq<char>>(p),
                Err(e) => parse_posture(s@) == Err::<LicensePosture, Seq<char>>(e@),
            },
    {
        if str_eq(s, "orc") {
            Ok(LicensePosture::Orc)
        } else if str_eq(s, "community-use") {
            Ok(LicensePosture::CommunityUse)
        } else if str_eq(s, "homebrew") {
            Ok(LicensePosture::Homebrew)
        } else if str_eq(s, "proprietary") {
            Ok(LicensePosture::Proprietary)
        } else {
            let mut m = "unknown license `".to_owned();
            m.append(s);
            m.append("`");
            Err(m)
        }
    }
}

/// A posture's name reads back as that posture.
pub proof fn law_posture_round_trip(p: LicensePosture)
    ensures
        parse_posture(posture_name(p)) == Ok::<LicensePosture, Seq<char>>(p),
{
    reveal_strlit("orc");
    reveal_strlit("community-use");
    reveal_strlit("homebrew");
    reveal_strlit("proprietary");
    assert("community-use"@.len() != "orc"@.len());
    assert("homebrew"@.len() != "orc"@.len() && "homebrew"@.len() != "community-use"@.len());
    assert("proprietary"@.len() != "orc"@.len() && "proprietary"@.len() != "community-use"@.len()
        && "proprietary"@.len() != "homebrew"@.len());
}

/// A Foundry pack file: extension `json`.
pub open spec fn is_json_spec(p: Seq<char>) -> bool {
    extension_spec(p) == Some(seq!['j', 's', 'o', 'n'])
}

/// Whether `path` names a pack file to import.
pub fn is_json_file(path: &str) -> (r: bool)
    ensures
        r == is_json_spec(path@),
{
    let json: [char; 4] = ['j', 's', 'o', 'n'];
    assert(json@ =~= seq!['j', 's', 'o', 'n']);
    has_extension(path, &json)
}

/// Counts of one import run.
#[derive(Debug)]
pub struct ImportReport {
    pub files_seen: usize,
    pub files_imported: usize,
    pub files_skipped: usize,
    pub errors: Vec<String>,
}

impl ImportReport {
    /// Every file is imported or skipped, at most once each, and each
    /// skipped file has one error.
    pub open spec fn wf(&self) -> bool {
        &&& self.files_imported + self.files_skipped <= self.files_seen
        &&& self.errors@.len() == self.files_skipped
    }

    /// A run over `files_seen` candidate files, none processed yet.
    pub fn new(files_seen: usize) -> (r: ImportReport)
        ensures
            r.wf(),
            r.files_seen == files_seen,
            r.files_imported == 0,
            r.files_skipped == 0,
    {
        ImportReport { files_seen, files_imported: 0, files_skipped: 0, errors: Vec::new() }
    }

    /// Files not yet counted as imported or skipped.
    pub fn remaining(&self) -> (n: usize)
        requires
            self.wf(),
        ensures
            n == self.files_seen - self.files_imported - self.files_skipped,
    {
        self.files_seen - self.files_imported - self.files_skipped
    }

    /// One more file imported.
    pub fn note_imported(&mut self)
        requires
            old(self).wf(),
            old(self).files_imported + old(self).files_skipped < old(self).files_seen,
        ensures
            final(self).wf(),
            final(self).files_imported == old(self).files_imported + 1,
            final(self).files_skipped == old(self).files_skipped,
            final(self).files_seen == old(self).files_seen,
            final(self).errors@ == old(self).errors@,
    {
        self.files_imported = self.files_imported + 1;
    }

    /// One more file skipped, `path: reason` recorded.
    pub fn note_skipped(&mut self, path: &str, reason: &str)
        requires
            old(self).wf(),
            old(self).files_imported + old(self).files_skipped < old(self).files_seen,
        ensures
            final(self).wf(),
            final(self).files_skipped == old(self).files_skipped + 1,
            final(self).files_imported == old(self).files_imported,
            final(self).files_seen == old(self).files_seen,
            final(self).errors@.len() == old(self).errors@.len() + 1,
            final(self).errors@.drop_last() == old(self).errors@,
            final(self).errors@.last()@ == path@ + ": "@ + reason@,
    {
        let mut m = path.to_owned();
        m.append(": ");
        m.append(reason);
        self.errors.push(m);
        self.files_skipped = self.files_skipped + 1;
    }
}

/// The value at a path of object keys.
pub open spec fn json_path(v: JsonV, ks: Seq<Seq<char>>) -> Option<JsonV>
    decreases ks.len(),
{
    if ks.len() == 0 {
        Some(v)
    } else {
        match json_get(v, ks[0]) {
            Some(x) => json_path(x, ks.skip(1)),
            None => None,
        }
    }
}

pub open spec fn str_at(v: JsonV, ks: Seq<Seq<char>>) -> Option<Seq<char>> {
    match json_path(v, ks) {
        Some(x) => json_as_str(x),
        None => None,
    }
}

/// A record's description: `system.details.description.value`, else
/// `system.description.value`, else empty.
pub open spec fn description_spec(v: JsonV) -> Seq<char> {
    match str_at(v, seq!["system"@, "details"@, "description"@, "value"@]) {
        Some(s) => s,
        None => match str_at(v, seq!["system"@, "description"@, "value"@]) {
            Some(s) => s,
            None => Seq::empty(),
        },
    }
}

fn get_path<'a>(v: &'a Json, ks: &[&str]) -> (r: Option<&'a Json>)
    ensures
        match r {
            Some(x) => json_path(v@, ks@.map_values(|k: &str| k@)) == Some(x@),
            None => json_path(v@, ks@.map_values(|k: &str| k@)) is None,
        },
{
    let ghost keys = ks@.map_values(|k: &str| k@);
    let mut cur: &Json = v;
    let mut i: usize = 0;
    assert(keys.skip(0) =~= keys);
    while i < ks.len()
        invariant
            i <= ks@.len(),
            keys == ks@.map_values(|k: &str| k@),
            json_path(v@, keys) == json_path(cur@, keys.skip(i as int)),
        decreases ks@.len() - i,
    {
        assert(keys.skip(i as int)[0] == ks@[i as int]@);
        assert(keys.skip(i as int).skip(1) =~= keys.skip(i + 1));
        match cur.get(ks[i]) {
            Some(x) => {
                cur = x;
            },
            None => {
                return None;
            },
        }
        i = i + 1;
    }
    assert(keys.skip(ks@.len() as int).len() == 0);
    Some(cur)
}

/// The description text of a Foundry record.
pub fn extract_description(value: &Json) -> (r: String)
    ensures
        r@ == description_spec(value@),
{
    let p1: [&str; 4] = ["system", "details", "description", "value"];
    let p2: [&str; 3] = ["system", "description", "value"];
    assert(p1@.map_values(|k: &str| k@) =~= seq!["system"@, "details"@, "description"@, "value"@]);
    assert(p2@.map_values(|k: &str| k@) =~= seq!["system"@, "description"@, "value"@]);
    match get_path(value, &p1) {
        Some(x) => match x.as_str() {
            Some(s) => return s.to_owned(),
            None => {},
        },
        None => {},
    }
    match get_path(value, &p2) {
        Some(x) => match x.as_str() {
            Some(s) => s.to_owned(),
            None => String::new(),
        },
        None => String::new(),
    }
}

/// What one Foundry record becomes.
#[derive(Debug)]
pub struct FoundryRecord {
    pub id: String,
    pub entity_type: String,
    pub name: String,
    pub description: String,
    /// `{"source": "foundry-pf2e", "title": name, "type": entity_type}`.
    pub frontmatter: Json,
}

pub open spec fn str_field_or(v: JsonV, k: Seq<char>, d: Seq<char>) -> Seq<char> {
    match json_get(v, k) {
        Some(x) => match json_as_str(x) {
            Some(s) => s,
            None => d,
        },
        None => d,
    }
}

/// The record's id: `foundry:` and its `_id`, else `foundry:` and the
/// slug of its name.
pub open spec fn record_id_spec(v: JsonV) -> Seq<char> {
    "foundry:"@ + match json_get(v, "_id"@) {
        Some(x) => match json_as_str(x) {
            Some(fid) => fid,
            None => slug_spec(str_field_or(v, "name"@, "(unnamed)"@)),
        },
        None => slug_spec(str_field_or(v, "name"@, "(unnamed)"@)),
    }
}

/// Read a Foundry record: its id, type (`unknown` when absent), name
/// (`(unnamed)` when absent), description and frontmatter.
pub fn foundry_record(value: &Json) -> (r: FoundryRecord)
    ensures
        r.id@ == record_id_spec(value@),
        r.name@ == str_field_or(value@, "name"@, "(unnamed)"@),
        r.entity_type@ == str_field_or(value@, "type"@, "unknown"@),
        r.description@ == description_spec(value@),
        r.frontmatter@ == JsonV::Object(
            seq![
                ("source"@, JsonV::Str("foundry-pf2e"@)),
                ("title"@, JsonV::Str(r.name@)),
                ("type"@, JsonV::Str(r.entity_type@)),
            ],
        ),
{
    let name: String = match value.get("name") {
        Some(x) => match x.as_str() {
            Some(s) => s.to_owned(),
            None => "(unnamed)".to_owned(),
        },
        None => "(unnamed)".to_owned(),
    };
    let entity_type: String = match value.get("type") {
        Some(x) => match x.as_str() {
            Some(s) => s.to_owned(),
            None => "unknown".to_owned(),
        },
        None => "unknown".to_owned(),
    };
    let mut id = "foundry:".to_owned();
    let fid: Option<&str> = match value.get("_id") {
        Some(x) => x.as_str(),
        None => None,
    };
    match fid {
        Some(f) => id.append(f),
        None => {
            let s = slug(name.as_str());
            id.append(s.as_str());
        },
    }
    let description = extract_description(value);
    let frontmatter = jobj(vec![
        ("source".to_owned(), jstr("foundry-pf2e")),
        ("title".to_owned(), jstr(name.as_str())),
        ("type".to_owned(), jstr(entity_type.as_str())),
    ]);
    assert(frontmatter@->Object_0 =~= seq![
        ("source"@, JsonV::Str("foundry-pf2e"@)),
        ("title"@, JsonV::Str(name@)),
        ("type"@, JsonV::Str(entity_type@)),
    ]);
    FoundryRecord { id, entity_type, name, description, frontmatter }
}

} // verus!
