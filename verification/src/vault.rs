//! Ingesting the markdown vault: which files are markdown, how a file's
//! frontmatter becomes an entity row, and the licence check on ingest.

use vstd::prelude::*;
use vstd::string::{StrSliceExecFns, StringExecFns};
use crate::content::{delim, frontmatter_bounds, frontmatter_spec, skip_bom, skip_bom_at};
use crate::rules::is_license_provenance;
use crate::text::{chars_of, has_prefix, has_prefix_at, opt_view, slug, slug_spec, str_eq};

verus! {

/// Split a vault file into its YAML frontmatter and its body. Without a
/// frontmatter block the YAML is empty; the body is then the text without
/// its byte-order marks when it opens with `---` (a block never closed),
/// and the whole text, marks included, otherwise.
pub open spec fn vault_split_spec(s: Seq<char>) -> (Seq<char>, Seq<char>) {
    match frontmatter_spec(s) {
        Some((a, b, c)) => (s.subrange(a, b), s.skip(c)),
        None => if has_prefix(skip_bom(s), delim()) {
            (Seq::empty(), skip_bom(s))
        } else {
            (Seq::empty(), s)
        },
    }
}

pub fn split_frontmatter(s: &str) -> (r: (&str, &str))
    ensures
        (r.0@, r.1@) == vault_split_spec(s@),
{
    let v = chars_of(s);
    match frontmatter_bounds(v.as_slice()) {
        Some((a, b, c)) => {
            let yaml = s.substring_char(a, b);
            let body = s.substring_char(c, v.len());
            assert(s@.subrange(c as int, s@.len() as int) =~= s@.skip(c as int));
            (yaml, body)
        },
        None => {
            proof {
                reveal_strlit("");
            }
            let k = skip_bom_at(v.as_slice(), 0);
            assert(v@.skip(0) =~= v@);
            let dash = ['-', '-', '-'];
            let opens = has_prefix_at(v.as_slice(), k, v.len(), dash.as_slice());
            assert(v@.subrange(k as int, v@.len() as int) =~= v@.skip(k as int));
            assert(dash@ =~= delim());
            if opens {
                let body = s.substring_char(k, v.len());
                ("", body)
            } else {
                ("", s)
            }
        },
    }
}

/// The last component of a `/`-separated path, trailing separators
/// ignored.
pub open spec fn last_component(p: Seq<char>) -> Seq<char>
    decreases p.len(),
{
    if p.len() > 0 && p.last() == '/' {
        last_component(p.drop_last())
    } else {
        match last_index_of(p, '/', p.len() as int) {
            Some(i) => p.skip(i + 1),
            None => p,
        }
    }
}

/// Index of the last `c` before position `n`.
pub open spec fn last_index_of(p: Seq<char>, c: char, n: int) -> Option<int>
    decreases n,
{
    if n <= 0 || n > p.len() {
        None
    } else if p[n - 1] == c {
        Some(n - 1)
    } else {
        last_index_of(p, c, n - 1)
    }
}

/// `Path::extension`: the text after the last `.` of the file name,
/// unless the name has no `.`, only a leading one, or is `..`.
pub open spec fn extension_spec(p: Seq<char>) -> Option<Seq<char>> {
    let name = last_component(p);
    if name == seq!['.', '.'] {
        None
    } else {
        match last_index_of(name, '.', name.len() as int) {
            Some(i) => if i == 0 {
                None
            } else {
                Some(name.skip(i + 1))
            },
            None => None,
        }
    }
}

/// A markdown file: extension `md` or `markdown`.
pub open spec fn is_markdown_spec(p: Seq<char>) -> bool {
    extension_spec(p) == Some(seq!['m', 'd']) || extension_spec(p) == Some(
        seq!['m', 'a', 'r', 'k', 'd', 'o', 'w', 'n'],
    )
}

fn last_index(v: &Vec<char>, c: char, n: usize) -> (r: Option<usize>)
    requires
        n <= v@.len(),
    ensures
        match r {
            Some(i) => last_index_of(v@, c, n as int) == Some(i as int) && i < n,
            None => last_index_of(v@, c, n as int) is None,
        },
{
    let mut k = n;
    while k > 0 && v[k - 1] != c
        invariant
            k <= n <= v@.len(),
            last_index_of(v@, c, n as int) == last_index_of(v@, c, k as int),
        decreases k,
    {
        k = k - 1;
    }
    if k == 0 {
        None
    } else {
        Some(k - 1)
    }
}

/// The last component of the path held in `v`.
fn file_name_of(v: &Vec<char>) -> (name: Vec<char>)
    ensures
        name@ == last_component(v@),
{
    let mut end = v.len();
    assert(v@.take(end as int) =~= v@);
    while end > 0 && v[end - 1] == '/'
        invariant
            end <= v@.len(),
            last_component(v@) == last_component(v@.take(end as int)),
        decreases end,
    {
        assert(v@.take(end as int).drop_last() =~= v@.take(end - 1));
        end = end - 1;
    }
    let ghost t = v@.take(end as int);
    proof {
        lemma_last_index_prefix(v@, '/', end as int, end as int);
    }
    let start = match last_index(v, '/', end) {
        Some(i) => i + 1,
        None => 0,
    };
    let mut name: Vec<char> = Vec::new();
    crate::text::push_range(&mut name, v.as_slice(), start, end);
    assert(t.skip(start as int) =~= v@.subrange(start as int, end as int));
    assert(t =~= v@.subrange(0, end as int));
    assert(name@ =~= Seq::<char>::empty() + v@.subrange(start as int, end as int));
    name
}

/// Whether `v` from `from` on is exactly `lit`.
fn tail_is(v: &Vec<char>, from: usize, lit: &[char]) -> (r: bool)
    requires
        from <= v@.len(),
    ensures
        r == (v@.skip(from as int) == lit@),
{
    if v.len() - from != lit.len() {
        return false;
    }
    let mut k: usize = 0;
    while k < lit.len()
        invariant
            k <= lit@.len(),
            from + lit@.len() == v@.len(),
            from + lit@.len() == v.len(),
            forall|q: int| 0 <= q < k ==> v@[from + q] == lit@[q],
        decreases lit@.len() - k,
    {
        if v[from + k] != lit[k] {
            assert(v@.skip(from as int)[k as int] != lit@[k as int]);
            return false;
        }
        k = k + 1;
    }
    assert(v@.skip(from as int) =~= lit@);
    true
}

/// Whether `path` has extension `ext`.
pub fn has_extension(path: &str, ext: &[char]) -> (r: bool)
    ensures
        r == (extension_spec(path@) == Some(ext@)),
{
    let v = chars_of(path);
    let name = file_name_of(&v);
    let dots: [char; 2] = ['.', '.'];
    assert(dots@ =~= seq!['.', '.']);
    if tail_is(&name, 0, &dots) {
        assert(name@.skip(0) =~= name@);
        return false;
    }
    assert(name@.skip(0) =~= name@);
    let start = match last_index(&name, '.', name.len()) {
        Some(i) => {
            if i == 0 {
                return false;
            }
            i + 1
        },
        None => {
            return false;
        },
    };
    tail_is(&name, start, ext)
}

/// Whether `path` names a markdown file.
pub fn is_markdown(path: &str) -> (r: bool)
    ensures
        r == is_markdown_spec(path@),
{
    let md: [char; 2] = ['m', 'd'];
    let markdown: [char; 8] = ['m', 'a', 'r', 'k', 'd', 'o', 'w', 'n'];
    assert(md@ =~= seq!['m', 'd']);
    assert(markdown@ =~= seq!['m', 'a', 'r', 'k', 'd', 'o', 'w', 'n']);
    has_extension(path, &md) || has_extension(path, &markdown)
}

proof fn lemma_last_index_prefix(s: Seq<char>, c: char, end: int, n: int)
    requires
        0 <= n <= end <= s.len(),
    ensures
        last_index_of(s.take(end), c, n) == last_index_of(s, c, n),
    decreases n,
{
    if n > 0 {
        lemma_last_index_prefix(s, c, end, n - 1);
    }
}

/// What a filesystem event says happened to a path.
#[derive(Debug, Clone, Copy, PartialEq, Eq, Structural)]
pub enum FsChange {
    Created,
    Modified,
    Removed,
    Other,
}

/// What the index does about it.
#[derive(Debug, Clone, Copy, PartialEq, Eq, Structural)]
pub enum VaultAction {
    /// (Re-)index the file.
    Ingest,
    /// Drop the file's row.
    Delete,
    Ignore,
}

pub open spec fn vault_action_spec(change: FsChange, path: Seq<char>) -> VaultAction {
    if !is_markdown_spec(path) {
        VaultAction::Ignore
    } else {
        match change {
            FsChange::Created | FsChange::Modified => VaultAction::Ingest,
            FsChange::Removed => VaultAction::Delete,
            FsChange::Other => VaultAction::Ignore,
        }
    }
}

/// A markdown file created or modified is indexed, one removed is
/// dropped; anything else is ignored.
pub fn vault_action(change: FsChange, path: &str) -> (a: VaultAction)
    ensures
        a == vault_action_spec(change, path@),
{
    if !is_markdown(path) {
        return VaultAction::Ignore;
    }
    match change {
        FsChange::Created | FsChange::Modified => VaultAction::Ingest,
        FsChange::Removed => VaultAction::Delete,
        FsChange::Other => VaultAction::Ignore,
    }
}

/// The frontmatter fields the ingest reads; the rest of the YAML is
/// kept by the caller as JSON.
#[derive(Debug)]
pub struct Frontmatter {
    pub id: Option<String>,
    pub title: Option<String>,
    pub entity_type: Option<String>,
    pub lens: Option<String>,
    pub license_provenance: Option<String>,
    pub campaign_id: Option<String>,
}

/// An entity row derived from a vault file.
#[derive(Debug)]
pub struct VaultEntity {
    pub id: String,
    pub entity_type: String,
    pub campaign_id: String,
    pub lens: Option<String>,
    pub license_provenance: String,
}

pub open spec fn or_default(o: Option<String>, d: Seq<char>) -> Seq<char> {
    match o {
        Some(s) => s@,
        None => d,
    }
}

/// The row of a vault file at `rel`: its id is the slug of the
/// frontmatter `id`, else of its `title`, else of the path; type `note`,
/// campaign `_default` and licence `homebrew` by default.
pub fn plan_vault_entity(fm: &Frontmatter, rel: &str) -> (e: VaultEntity)
    ensures
        e.id@ == slug_spec(
            match fm.id {
                Some(i) => i@,
                None => or_default(fm.title, rel@),
            },
        ),
        e.entity_type@ == or_default(fm.entity_type, "note"@),
        e.campaign_id@ == or_default(fm.campaign_id, "_default"@),
        e.license_provenance@ == or_default(fm.license_provenance, "homebrew"@),
        opt_view(e.lens) == opt_view(fm.lens),
{
    let source: &str = match &fm.id {
        Some(i) => i.as_str(),
        None => match &fm.title {
            Some(t) => t.as_str(),
            None => rel,
        },
    };
    let id = slug(source);
    let entity_type = match &fm.entity_type {
        Some(t) => t.clone(),
        None => "note".to_owned(),
    };
    let campaign_id = match &fm.campaign_id {
        Some(c) => c.clone(),
        None => "_default".to_owned(),
    };
    let license_provenance = match &fm.license_provenance {
        Some(l) => l.clone(),
        None => "homebrew".to_owned(),
    };
    let lens = match &fm.lens {
        Some(l) => Some(l.clone()),
        None => None,
    };
    VaultEntity { id, entity_type, campaign_id, lens, license_provenance }
}

/// Refuse a vault file whose licence is not one of the four.
pub fn check_ingest_license(file_path: &str, prov: &str) -> (r: Result<(), String>)
    ensures
        r is Ok <==> is_license_provenance(prov@),
        r matches Err(e) ==> e@ == file_path@ + ": invalid license_provenance `"@ + prov@
            + "` — must be orc | community-use | homebrew | proprietary"@,
{
    if str_eq(prov, "orc") || str_eq(prov, "community-use") || str_eq(prov, "homebrew") || str_eq(prov, "proprietary") {
        Ok(())
    } else {
        let mut m = file_path.to_owned();
        m.append(": invalid license_provenance `");
        m.append(prov);
        m.append("` — must be orc | community-use | homebrew | proprietary");
        Err(m)
    }
}

} // verus!
