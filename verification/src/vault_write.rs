//! Campaign and entity writes through the markdown vault: ids, paths,
//! licence checks, frontmatter and the text of the files written.

use vstd::prelude::*;
use vstd::string::StringExecFns;
use crate::json::{
    Json, JsonV, entries_view, entry_get, jstr, lemma_find_same_keys, lemma_get_push, lemma_obj_find_range,
    obj_find,
};
use crate::text::{chars_of, has_prefix, is_slug, lemma_slug_is_slug, opt_view, slug, slug_spec, str_eq, trim_end_spec, skip_ws_backward, string_from_chars};
use crate::rules::is_license_provenance;
use crate::content::{closing, delim, find_closing, skip_bom, skip_newlines, split_frontmatter_spec};

verus! {

/// The user's vault root, as a path.
#[derive(Debug)]
pub struct VaultRoot(pub String);

/// The vault root's path.
pub fn vault_root(vault: &VaultRoot) -> (r: &str)
    ensures
        r@ == vault.0@,
{
    vault.0.as_str()
}

/// A campaign: its id (a slug), display name, default lens and how many
/// vault entities it holds.
#[derive(Debug)]
pub struct Campaign {
    pub id: String,
    pub name: String,
    pub default_lens: Option<String>,
    pub entity_count: i64,
}

/// The id and vault-relative path of a written entity.
#[derive(Debug)]
pub struct CrudResult {
    pub id: String,
    pub file_path: String,
}

/// One edge between two entities.
#[derive(Debug)]
pub struct RelationRow {
    pub from_id: String,
    pub edge_type: String,
    pub to_id: String,
}

/// `s` written with Rust's `Debug` for `str`: quoted, with escapes.
pub uninterp spec fn debug_str(s: Seq<char>) -> Seq<char>;

/// `<str as Debug>::fmt`, through `format!("{:?}")`.
#[verifier::external_body]
fn debug_quoted(s: &str) -> (r: String)
    ensures
        r@ == debug_str(s@),
{
    format!("{:?}", s)
}

/// A path segment that could escape its directory or hide a file: empty,
/// holding a separator, `..`, or starting with a dot.
pub open spec fn unsafe_segment(s: Seq<char>) -> bool {
    ||| s.len() == 0
    ||| s.contains('/')
    ||| s.contains('\\')
    ||| s == seq!['.', '.']
    ||| s[0] == '.'
}

pub open spec fn unsafe_segment_msg(s: Seq<char>) -> Seq<char> {
    "unsafe path segment: "@ + debug_str(s)
}

/// Reject anything that escapes the campaign root.
pub fn safe_segment(seg: &str) -> (r: Result<(), String>)
    ensures
        r is Ok <==> !unsafe_segment(seg@),
        r matches Err(e) ==> e@ == unsafe_segment_msg(seg@),
{
    let v = chars_of(seg);
    let mut bad = v.len() == 0;
    let mut i: usize = 0;
    while i < v.len()
        invariant
            i <= v@.len(),
            v@ == seg@,
            bad <==> (v@.len() == 0 || exists|k: int| 0 <= k < i && (v@[k] == '/' || v@[k] == '\\')),
        decreases v@.len() - i,
    {
        if v[i] == '/' || v[i] == '\\' {
            bad = true;
        }
        i = i + 1;
    }
    if !bad && v[0] == '.' {
        bad = true;
    }
    proof {
        if v@.len() > 0 && !(exists|k: int| 0 <= k < v@.len() && (v@[k] == '/' || v@[k] == '\\')) {
            assert(!seg@.contains('/')) by {
                if seg@.contains('/') {
                    let k = choose|k: int| 0 <= k < seg@.len() && seg@[k] == '/';
                    assert(v@[k] == '/');
                }
            }
            assert(!seg@.contains('\\')) by {
                if seg@.contains('\\') {
                    let k = choose|k: int| 0 <= k < seg@.len() && seg@[k] == '\\';
                    assert(v@[k] == '\\');
                }
            }
            if seg@ == seq!['.', '.'] {
                assert(v@[0] == '.');
            }
        }
        if exists|k: int| 0 <= k < v@.len() && (v@[k] == '/' || v@[k] == '\\') {
            let k = choose|k: int| 0 <= k < v@.len() && (v@[k] == '/' || v@[k] == '\\');
            assert(seg@.contains(v@[k]));
        }
    }
    if bad {
        let mut m = "unsafe path segment: ".to_owned();
        let q = debug_quoted(seg);
        m.append(q.as_str());
        Err(m)
    } else {
        Ok(())
    }
}

/// Every non-empty slug is a safe path segment: slugs hold only
/// lower-case letters, digits and inner dashes.
pub proof fn law_slug_is_safe_segment(s: Seq<char>)
    requires
        slug_spec(s).len() > 0,
    ensures
        !unsafe_segment(slug_spec(s)),
{
    lemma_slug_is_slug(s);
    let t = slug_spec(s);
    assert(crate::text::is_slug_char(t[0]));
    assert(!t.contains('/')) by {
        if t.contains('/') {
            let k = choose|k: int| 0 <= k < t.len() && t[k] == '/';
            assert(crate::text::is_slug_char(t[k]));
        }
    }
    assert(!t.contains('\\')) by {
        if t.contains('\\') {
            let k = choose|k: int| 0 <= k < t.len() && t[k] == '\\';
            assert(crate::text::is_slug_char(t[k]));
        }
    }
}

proof fn lemma_safe_by_chars(s: Seq<char>)
    requires
        s.len() > 0,
        s[0] != '.',
        forall|i: int| 0 <= i < s.len() ==> #[trigger] s[i] != '/' && s[i] != '\\',
    ensures
        !unsafe_segment(s),
{
    assert(s != seq!['.', '.']) by {
        if s == seq!['.', '.'] {
            assert(s[0] == '.');
        }
    }
    assert(!s.contains('/')) by {
        if s.contains('/') {
            let k = choose|k: int| 0 <= k < s.len() && s[k] == '/';
            assert(s[k] != '/');
        }
    }
    assert(!s.contains('\\')) by {
        if s.contains('\\') {
            let k = choose|k: int| 0 <= k < s.len() && s[k] == '\\';
            assert(s[k] != '\\');
        }
    }
}

/// An entity's file path stays inside its campaign: it is
/// `campaigns/<campaign>/<dir>/<file>`, and none of the campaign, the
/// type's directory or the file name can name a parent directory, hold a
/// separator, or hide the file.
pub proof fn law_entity_path_stays_in_campaign(campaign: Seq<char>, ty: Seq<char>, title: Seq<char>)
    ensures
        entity_file_spec(campaign, ty, title) matches Ok(p) ==> {
            let dir = plural_spec(slug_spec(ty));
            let file = slug_spec(title) + ".md"@;
            &&& p == "campaigns/"@ + campaign + "/"@ + dir + "/"@ + file
            &&& !unsafe_segment(campaign)
            &&& !unsafe_segment(dir)
            &&& !unsafe_segment(file)
        },
{
    if let Ok(p) = entity_file_spec(campaign, ty, title) {
        let t = slug_spec(ty);
        let u = slug_spec(title);
        lemma_slug_is_slug(ty);
        lemma_slug_is_slug(title);
        assert(t.len() > 0 && u.len() > 0);
        let dir = plural_spec(t);
        reveal_strlit(".md");
        let file = u + ".md"@;
        assert(p =~= "campaigns/"@ + campaign + "/"@ + dir + "/"@ + file);
        assert(crate::text::is_slug_char(t[0]));
        assert(crate::text::is_slug_char(u[0]));
        assert forall|i: int| 0 <= i < dir.len() implies #[trigger] dir[i] != '/' && dir[i] != '\\' by {
            if i < t.len() {
                assert(crate::text::is_slug_char(t[i]));
            }
        }
        assert(dir.len() > 0 && dir[0] == t[0]);
        lemma_safe_by_chars(dir);
        assert forall|i: int| 0 <= i < file.len() implies #[trigger] file[i] != '/' && file[i] != '\\' by {
            if i < u.len() {
                assert(file[i] == u[i]);
                assert(crate::text::is_slug_char(u[i]));
            }
        }
        assert(file[0] == u[0]);
        lemma_safe_by_chars(file);
    }
}

pub open spec fn license_msg(s: Seq<char>) -> Seq<char> {
    "license_provenance `"@ + s + "` not in [orc, community-use, homebrew, proprietary]"@
}

/// Accept only the four licence provenances.
pub fn validate_license(s: &str) -> (r: Result<(), String>)
    ensures
        r is Ok <==> is_license_provenance(s@),
        r matches Err(e) ==> e@ == license_msg(s@),
{
    if str_eq(s, "orc") || str_eq(s, "community-use") || str_eq(s, "homebrew") || str_eq(s, "proprietary") {
        Ok(())
    } else {
        let mut m = "license_provenance `".to_owned();
        m.append(s);
        m.append("` not in [orc, community-use, homebrew, proprietary]");
        Err(m)
    }
}

pub open spec fn ends_with(s: Seq<char>, t: Seq<char>) -> bool {
    t.len() <= s.len() && s.skip(s.len() - t.len()) == t
}

/// The directory name for entities of a type: English plural, with
/// `-es` after ch/sh/x/z/ss, words already ending in `s` kept, a final
/// `y` turned into `ies`, and `-s` otherwise.
pub open spec fn plural_spec(s: Seq<char>) -> Seq<char> {
    if ends_with(s, seq!['c', 'h']) || ends_with(s, seq!['s', 'h']) || ends_with(s, seq!['x'])
        || ends_with(s, seq!['z']) || ends_with(s, seq!['s', 's']) {
        s + seq!['e', 's']
    } else if ends_with(s, seq!['s']) {
        s
    } else if ends_with(s, seq!['y']) && s.len() > 1 {
        s.drop_last() + seq!['i', 'e', 's']
    } else {
        s + seq!['s']
    }
}

fn ends_with_exec(v: &Vec<char>, t: &[char]) -> (r: bool)
    ensures
        r == ends_with(v@, t@),
{
    if t.len() > v.len() {
        return false;
    }
    let off = v.len() - t.len();
    let mut k: usize = 0;
    while k < t.len()
        invariant
            k <= t@.len(),
            off + t@.len() == v@.len(),
            off + t@.len() == v.len(),
            forall|j: int| 0 <= j < k ==> v@[off + j] == t@[j],
        decreases t@.len() - k,
    {
        if v[off + k] != t[k] {
            assert(v@.skip(off as int)[k as int] != t@[k as int]);
            return false;
        }
        k = k + 1;
    }
    assert(v@.skip(off as int) =~= t@);
    true
}

/// Pluralize a type slug for its directory.
pub fn plural(type_slug: &str) -> (r: String)
    ensures
        r@ == plural_spec(type_slug@),
{
    let mut v = chars_of(type_slug);
    let ch: [char; 2] = ['c', 'h'];
    let sh: [char; 2] = ['s', 'h'];
    let x: [char; 1] = ['x'];
    let z: [char; 1] = ['z'];
    let ss: [char; 2] = ['s', 's'];
    let s1: [char; 1] = ['s'];
    let y: [char; 1] = ['y'];
    assert(ch@ =~= seq!['c', 'h']);
    assert(sh@ =~= seq!['s', 'h']);
    assert(x@ =~= seq!['x']);
    assert(z@ =~= seq!['z']);
    assert(ss@ =~= seq!['s', 's']);
    assert(s1@ =~= seq!['s']);
    assert(y@ =~= seq!['y']);
    let ghost s = v@;
    if ends_with_exec(&v, &ch) || ends_with_exec(&v, &sh) || ends_with_exec(&v, &x) || ends_with_exec(&v, &z)
        || ends_with_exec(&v, &ss) {
        v.push('e');
        v.push('s');
        assert(v@ =~= s + seq!['e', 's']);
    } else if ends_with_exec(&v, &s1) {
    } else if ends_with_exec(&v, &y) && v.len() > 1 {
        v.pop();
        v.push('i');
        v.push('e');
        v.push('s');
        assert(v@ =~= s.drop_last() + seq!['i', 'e', 's']);
    } else {
        v.push('s');
        assert(v@ =~= s + seq!['s']);
    }
    string_from_chars(v.as_slice())
}

/// `<campaign>:<type slug>/<title slug>`, when the campaign is a safe
/// segment and both slugs are non-empty.
pub open spec fn entity_id_spec(campaign: Seq<char>, ty: Seq<char>, title: Seq<char>) -> Result<Seq<char>, Seq<char>> {
    if unsafe_segment(campaign) {
        Err(unsafe_segment_msg(campaign))
    } else if slug_spec(ty).len() == 0 || slug_spec(title).len() == 0 {
        Err("type and title must produce non-empty slugs"@)
    } else {
        Ok(campaign + ":"@ + slug_spec(ty) + "/"@ + slug_spec(title))
    }
}

/// Build a stable, on-disk-friendly id of the form `<campaign>:<type>/<slug>`.
pub fn entity_id(campaign: &str, type_: &str, title: &str) -> (r: Result<String, String>)
    ensures
        match r {
            Ok(s) => entity_id_spec(campaign@, type_@, title@) == Ok::<Seq<char>, Seq<char>>(s@),
            Err(e) => entity_id_spec(campaign@, type_@, title@) == Err::<Seq<char>, Seq<char>>(e@),
        },
{
    if let Err(e) = safe_segment(campaign) {
        return Err(e);
    }
    let type_slug = slug(type_);
    let title_slug = slug(title);
    let tv = chars_of(type_slug.as_str());
    let lv = chars_of(title_slug.as_str());
    if tv.len() == 0 || lv.len() == 0 {
        return Err("type and title must produce non-empty slugs".to_owned());
    }
    proof {
        law_slug_is_safe_segment(type_@);
        law_slug_is_safe_segment(title@);
    }
    if let Err(e) = safe_segment(type_slug.as_str()) {
        return Err(e);
    }
    if let Err(e) = safe_segment(title_slug.as_str()) {
        return Err(e);
    }
    let mut id = campaign.to_owned();
    id.append(":");
    id.append(type_slug.as_str());
    id.append("/");
    id.append(title_slug.as_str());
    Ok(id)
}

/// `campaigns/<campaign>/<plural of type slug>/<title slug>.md`.
pub open spec fn entity_file_spec(campaign: Seq<char>, ty: Seq<char>, title: Seq<char>) -> Result<Seq<char>, Seq<char>> {
    if unsafe_segment(campaign) {
        Err(unsafe_segment_msg(campaign))
    } else if unsafe_segment(slug_spec(ty)) {
        Err(unsafe_segment_msg(slug_spec(ty)))
    } else if unsafe_segment(slug_spec(title)) {
        Err(unsafe_segment_msg(slug_spec(title)))
    } else {
        Ok("campaigns/"@ + campaign + "/"@ + plural_spec(slug_spec(ty)) + "/"@ + slug_spec(title) + ".md"@)
    }
}

/// Where an entity's markdown file lives, relative to the vault root.
pub fn entity_file(campaign: &str, type_: &str, title: &str) -> (r: Result<String, String>)
    ensures
        match r {
            Ok(s) => entity_file_spec(campaign@, type_@, title@) == Ok::<Seq<char>, Seq<char>>(s@),
            Err(e) => entity_file_spec(campaign@, type_@, title@) == Err::<Seq<char>, Seq<char>>(e@),
        },
{
    let type_slug = slug(type_);
    let title_slug = slug(title);
    if let Err(e) = safe_segment(campaign) {
        return Err(e);
    }
    if let Err(e) = safe_segment(type_slug.as_str()) {
        return Err(e);
    }
    if let Err(e) = safe_segment(title_slug.as_str()) {
        return Err(e);
    }
    let mut p = "campaigns/".to_owned();
    p.append(campaign);
    p.append("/");
    let dir = plural(type_slug.as_str());
    p.append(dir.as_str());
    p.append("/");
    p.append(title_slug.as_str());
    p.append(".md");
    Ok(p)
}

/// The slug a campaign name gets as its id, when it is non-empty.
pub open spec fn campaign_id_spec(name: Seq<char>) -> Result<Seq<char>, Seq<char>> {
    if slug_spec(name).len() == 0 {
        Err("campaign name produces an empty slug"@)
    } else {
        Ok(slug_spec(name))
    }
}

/// The id of a new campaign named `name`.
pub fn campaign_id(name: &str) -> (r: Result<String, String>)
    ensures
        match r {
            Ok(s) => campaign_id_spec(name@) == Ok::<Seq<char>, Seq<char>>(s@),
            Err(e) => campaign_id_spec(name@) == Err::<Seq<char>, Seq<char>>(e@),
        },
{
    let id = slug(name);
    let v = chars_of(id.as_str());
    if v.len() == 0 {
        return Err("campaign name produces an empty slug".to_owned());
    }
    proof {
        law_slug_is_safe_segment(name@);
    }
    if let Err(e) = safe_segment(id.as_str()) {
        return Err(e);
    }
    Ok(id)
}

pub open spec fn manifest_spec(id: Seq<char>, name: Seq<char>, lens: Option<Seq<char>>, created: Seq<char>) -> Seq<char> {
    "# pf2e-companion campaign manifest\n[campaign]\nid = \""@ + id + "\"\nname = "@ + debug_str(name) + "\n"@
        + (match lens {
        Some(l) => "default_lens = \""@ + l + "\""@,
        None => Seq::empty(),
    }) + "\ncreated = \""@ + created + "\"\n"@
}

/// The `campaign.toml` manifest of a new campaign, `created` being its
/// UTC creation time as `%Y-%m-%dT%H:%M:%SZ`.
pub fn campaign_manifest(id: &str, name: &str, default_lens: Option<&str>, created: &str) -> (r: String)
    ensures
        r@ == manifest_spec(id@, name@, match default_lens {
            Some(l) => Some(l@),
            None => None,
        }, created@),
{
    let mut m = "# pf2e-companion campaign manifest\n[campaign]\nid = \"".to_owned();
    m.append(id);
    m.append("\"\nname = ");
    let q = debug_quoted(name);
    m.append(q.as_str());
    m.append("\n");
    match default_lens {
        Some(l) => {
            m.append("default_lens = \"");
            m.append(l);
            m.append("\"");
        },
        None => {},
    }
    m.append("\ncreated = \"");
    m.append(created);
    m.append("\"\n");
    m
}

/// The text of an entity file: the YAML frontmatter between `---` lines,
/// a blank line, then the body without trailing whitespace and a final
/// newline.
pub open spec fn entity_text_spec(yaml: Seq<char>, body: Seq<char>) -> Seq<char> {
    "---\n"@ + yaml + "---\n\n"@ + trim_end_spec(body) + "\n"@
}

pub fn entity_file_contents(yaml: &str, body: &str) -> (r: String)
    ensures
        r@ == entity_text_spec(yaml@, body@),
{
    let v = chars_of(body);
    let k = skip_ws_backward(v.as_slice(), 0, v.len());
    assert(v@.subrange(0, v@.len() as int) =~= v@);
    let trimmed = string_from_chars(&v[0..k]);
    let mut r = "---\n".to_owned();
    r.append(yaml);
    r.append("---\n\n");
    r.append(trimmed.as_str());
    r.append("\n");
    r
}

proof fn lemma_find_closing_skip(s: Seq<char>, i: int, k: int)
    requires
        0 <= i <= k,
        forall|j: int| i <= j < k && j + 4 <= s.len() ==> #[trigger] s.subrange(j, j + 4) != closing(),
    ensures
        find_closing(s, i) == find_closing(s, k),
    decreases k - i,
{
    if i < k && i + 4 <= s.len() {
        lemma_find_closing_skip(s, i + 1, k);
    }
}

/// What is written is read back: splitting the text of an entity file
/// gives the YAML that was written (without its final newline) and the
/// body, for any YAML that ends in a newline, starts with neither `\r`
/// nor `\n`, and has no line starting with `---`.
pub proof fn law_written_entity_reads_back(yaml: Seq<char>, body: Seq<char>)
    requires
        yaml.len() > 0,
        yaml.last() == '\n',
        yaml[0] != '\r' && yaml[0] != '\n',
        forall|i: int| 0 <= i && i + 4 <= yaml.len() ==> #[trigger] yaml.subrange(i, i + 4) != closing(),
    ensures
        split_frontmatter_spec(entity_text_spec(yaml, body)) == (
            yaml.drop_last(),
            skip_newlines(trim_end_spec(body) + "\n"@),
        ),
{
    reveal_strlit("---\n");
    reveal_strlit("---\n\n");
    reveal_strlit("\n");
    let b = trim_end_spec(body);
    let text = entity_text_spec(yaml, body);
    let n = yaml.len() as int;
    assert(text =~= seq!['-', '-', '-', '\n'] + yaml + seq!['-', '-', '-', '\n', '\n'] + b + seq!['\n']);
    assert(skip_bom(text) == text);
    assert(text.take(3) =~= delim());
    assert(has_prefix(skip_bom(text), delim()));
    let a0 = text.skip(3);
    assert(a0[0] == '\n');
    assert(a0.skip(1) =~= text.skip(4));
    assert(skip_newlines(a0) == skip_newlines(text.skip(4)));
    let a = text.skip(4);
    assert(a =~= yaml + seq!['-', '-', '-', '\n', '\n'] + b + seq!['\n']);
    assert(!(a[0] == '\r' || a[0] == '\n'));
    assert(skip_newlines(a) == a);
    assert forall|j: int| 0 <= j < n - 1 && j + 4 <= a.len() implies #[trigger] a.subrange(j, j + 4) != closing() by {
        if j + 4 <= n {
            assert(a.subrange(j, j + 4) =~= yaml.subrange(j, j + 4));
        } else if j == n - 3 {
            assert(a.subrange(j, j + 4)[2] == yaml[n - 1]);
        } else {
            assert(j == n - 2);
            assert(a.subrange(j, j + 4)[1] == yaml[n - 1]);
        }
    }
    lemma_find_closing_skip(a, 0, n - 1);
    assert(a.subrange(n - 1, n + 3) =~= closing());
    assert(find_closing(a, n - 1) == Some(n - 1));
    let rest = a.skip(n + 3);
    assert(rest =~= seq!['\n', '\n'] + b + seq!['\n']);
    assert(rest.skip(1).skip(1) =~= b + seq!['\n']);
    assert(rest[0] == '\n');
    assert(skip_newlines(rest) == skip_newlines(rest.skip(1)));
    assert(rest.skip(1)[0] == '\n');
    assert(skip_newlines(rest.skip(1)) == skip_newlines(rest.skip(1).skip(1)));
    assert(skip_newlines(rest) == skip_newlines(b + seq!['\n']));
    let body_v = skip_newlines(rest);
    crate::content::lemma_skip_newlines_suffix(rest);
    let c = text.len() - body_v.len();
    assert(text.subrange(4, 4 + n - 1) =~= yaml.drop_last());
    assert(text.skip(c) == body_v) by {
        assert(body_v == rest.skip(rest.len() - body_v.len()));
        assert(rest =~= text.skip(n + 7));
        assert(text.skip(n + 7).skip(rest.len() - body_v.len()) =~= text.skip(c));
    }
    assert(b + "\n"@ =~= b + seq!['\n']);
}

/// The fields of a new entity, as the IPC layer receives them; `kind` is
/// the entity type.
#[derive(Debug)]
pub struct EntityInput {
    pub campaign_id: String,
    pub kind: String,
    pub title: String,
    pub lens: Option<String>,
    pub license_provenance: Option<String>,
    pub body: Option<String>,
    /// Extra frontmatter, merged after the canonical fields.
    pub frontmatter: Vec<(String, Json)>,
}

/// Set `k` to `v`: in place where `k` is already present, else at the end.
pub open spec fn upsert(es: Seq<(Seq<char>, JsonV)>, k: Seq<char>, v: JsonV) -> Seq<(Seq<char>, JsonV)> {
    match obj_find(es, k, 0) {
        Some(i) => es.update(i, (k, v)),
        None => es.push((k, v)),
    }
}

/// Keys the IPC layer owns; extra frontmatter cannot set them.
pub open spec fn reserved_key(k: Seq<char>) -> bool {
    k == "id"@ || k == "campaign_id"@ || k == "title"@ || k == "type"@
}

/// The first `n` extras merged into `es`, reserved keys skipped.
pub open spec fn merge_extras(es: Seq<(Seq<char>, JsonV)>, extras: Seq<(String, Json)>, n: int) -> Seq<(Seq<char>, JsonV)>
    decreases n,
{
    if n <= 0 || n > extras.len() {
        es
    } else {
        let prev = merge_extras(es, extras, n - 1);
        let (k, v) = extras[n - 1];
        if reserved_key(k@) {
            prev
        } else {
            upsert(prev, k@, v@)
        }
    }
}

/// The frontmatter of a new entity: id, title, type, campaign, the lens
/// when given, the licence (homebrew by default; refused unless one of
/// the four), then the extras.
pub open spec fn new_frontmatter_spec(id: Seq<char>, input: EntityInput) -> Result<Seq<(Seq<char>, JsonV)>, Seq<char>> {
    let lp = match input.license_provenance {
        Some(l) => l@,
        None => "homebrew"@,
    };
    if !is_license_provenance(lp) {
        Err(license_msg(lp))
    } else {
        let base = seq![
            ("id"@, JsonV::Str(id)),
            ("title"@, JsonV::Str(input.title@)),
            ("type"@, JsonV::Str(input.kind@)),
            ("campaign_id"@, JsonV::Str(input.campaign_id@)),
        ] + (match input.lens {
            Some(l) => seq![("lens"@, JsonV::Str(l@))],
            None => Seq::empty(),
        }) + seq![("license_provenance"@, JsonV::Str(lp))];
        Ok(merge_extras(base, input.frontmatter@, input.frontmatter@.len() as int))
    }
}

fn upsert_exec(es: &mut Vec<(String, Json)>, k: &str, v: Json)
    ensures
        entries_view(final(es)@) == upsert(entries_view(old(es)@), k@, v@),
{
    let ghost ev = entries_view(es@);
    let mut i: usize = 0;
    while i < es.len()
        invariant
            i <= es@.len(),
            es@ == old(es)@,
            ev == entries_view(es@),
            obj_find(ev, k@, 0) == obj_find(ev, k@, i as int),
        decreases es@.len() - i,
    {
        if str_eq(es[i].0.as_str(), k) {
            assert(ev[i as int].0 == k@);
            assert(obj_find(ev, k@, i as int) == Some(i as int));
            let ghost vv = v@;
            es.set(i, (k.to_owned(), v));
            assert(entries_view(es@) =~= ev.update(i as int, (k@, vv)));
            return;
        }
        i = i + 1;
    }
    let ghost vv = v@;
    es.push((k.to_owned(), v));
    assert(entries_view(es@) =~= ev.push((k@, vv)));
}

/// The frontmatter entries of a new entity with id `id`, in order.
pub fn new_frontmatter(id: &str, input: &EntityInput) -> (r: Result<Vec<(String, Json)>, String>)
    ensures
        match r {
            Ok(es) => new_frontmatter_spec(id@, *input) == Ok::<Seq<(Seq<char>, JsonV)>, Seq<char>>(
                entries_view(es@),
            ),
            Err(e) => new_frontmatter_spec(id@, *input) == Err::<Seq<(Seq<char>, JsonV)>, Seq<char>>(e@),
        },
{
    let mut es: Vec<(String, Json)> = Vec::new();
    es.push(("id".to_owned(), jstr(id)));
    es.push(("title".to_owned(), jstr(input.title.as_str())));
    es.push(("type".to_owned(), jstr(input.kind.as_str())));
    es.push(("campaign_id".to_owned(), jstr(input.campaign_id.as_str())));
    match &input.lens {
        Some(l) => es.push(("lens".to_owned(), jstr(l.as_str()))),
        None => {},
    }
    let lp = match &input.license_provenance {
        Some(l) => l.clone(),
        None => "homebrew".to_owned(),
    };
    if let Err(e) = validate_license(lp.as_str()) {
        return Err(e);
    }
    es.push(("license_provenance".to_owned(), jstr(lp.as_str())));
    let ghost base = entries_view(es@);
    proof {
        let lpv = match opt_view(input.license_provenance) {
            Some(l) => l,
            None => "homebrew"@,
        };
        assert(base =~= seq![
            ("id"@, JsonV::Str(id@)),
            ("title"@, JsonV::Str(input.title@)),
            ("type"@, JsonV::Str(input.kind@)),
            ("campaign_id"@, JsonV::Str(input.campaign_id@)),
        ] + (match input.lens {
            Some(l) => seq![("lens"@, JsonV::Str(l@))],
            None => Seq::empty(),
        }) + seq![("license_provenance"@, JsonV::Str(lpv))]);
    }
    let mut i: usize = 0;
    while i < input.frontmatter.len()
        invariant
            i <= input.frontmatter@.len(),
            entries_view(es@) == merge_extras(base, input.frontmatter@, i as int),
        decreases input.frontmatter@.len() - i,
    {
        let k = input.frontmatter[i].0.as_str();
        if !(str_eq(k, "id") || str_eq(k, "campaign_id") || str_eq(k, "title") || str_eq(k, "type")) {
            let v = input.frontmatter[i].1.deep_clone();
            upsert_exec(&mut es, k, v);
        }
        i = i + 1;
    }
    Ok(es)
}

/// A partial update of an entity: each field given replaces the current
/// one; `frontmatter`, when given, replaces the entire extras map (every
/// key but id, title, type, campaign_id, lens and license_provenance).
#[derive(Debug)]
pub struct EntityPatch {
    pub title: Option<String>,
    pub lens: Option<String>,
    pub license_provenance: Option<String>,
    pub body: Option<String>,
    pub frontmatter: Option<Vec<(String, Json)>>,
}

/// Keys a patch's extra frontmatter may not overwrite.
pub open spec fn patch_reserved(k: Seq<char>) -> bool {
    k == "id"@ || k == "campaign_id"@
}

/// The keys every entity's frontmatter carries; the rest are extras.
pub open spec fn canonical_key(k: Seq<char>) -> bool {
    k == "id"@ || k == "title"@ || k == "type"@ || k == "campaign_id"@ || k == "lens"@ || k
        == "license_provenance"@
}

/// The canonical entries among the first `n`, in order.
pub open spec fn canonical_only(es: Seq<(Seq<char>, JsonV)>, n: int) -> Seq<(Seq<char>, JsonV)>
    decreases n,
{
    if n <= 0 || n > es.len() {
        Seq::empty()
    } else if canonical_key(es[n - 1].0) {
        canonical_only(es, n - 1).push(es[n - 1])
    } else {
        canonical_only(es, n - 1)
    }
}

/// The first `n` extra entries merged in, reserved keys skipped.
pub open spec fn merge_patch_extras(es: Seq<(Seq<char>, JsonV)>, extras: Seq<(String, Json)>, n: int) -> Seq<(Seq<char>, JsonV)>
    decreases n,
{
    if n <= 0 || n > extras.len() {
        es
    } else {
        let prev = merge_patch_extras(es, extras, n - 1);
        let (k, v) = extras[n - 1];
        if patch_reserved(k@) {
            prev
        } else {
            upsert(prev, k@, v@)
        }
    }
}

pub open spec fn upsert_opt(es: Seq<(Seq<char>, JsonV)>, k: Seq<char>, v: Option<String>) -> Seq<(Seq<char>, JsonV)> {
    match v {
        Some(x) => upsert(es, k, JsonV::Str(x@)),
        None => es,
    }
}

/// The frontmatter after a patch: the id set to `new_id`, then the title,
/// lens and licence the patch gives (an unknown licence is refused); then,
/// when the patch carries extras, the current extras dropped and the
/// patch's added, each replacing the entry of its key or appended.
pub open spec fn patch_frontmatter_spec(es: Seq<(Seq<char>, JsonV)>, new_id: Seq<char>, p: EntityPatch) -> Result<Seq<(Seq<char>, JsonV)>, Seq<char>> {
    let with_fields = upsert_opt(
        upsert_opt(upsert(es, "id"@, JsonV::Str(new_id)), "title"@, p.title),
        "lens"@,
        p.lens,
    );
    match p.license_provenance {
        Some(lp) if !is_license_provenance(lp@) => Err(license_msg(lp@)),
        _ => {
            let with_license = upsert_opt(with_fields, "license_provenance"@, p.license_provenance);
            Ok(
                match p.frontmatter {
                    Some(extra) => merge_patch_extras(
                        canonical_only(with_license, with_license.len() as int),
                        extra@,
                        extra@.len() as int,
                    ),
                    None => with_license,
                },
            )
        },
    }
}

fn upsert_opt_exec(es: &mut Vec<(String, Json)>, k: &str, v: &Option<String>)
    ensures
        entries_view(final(es)@) == upsert_opt(entries_view(old(es)@), k@, *v),
{
    match v {
        Some(x) => upsert_exec(es, k, jstr(x.as_str())),
        None => {},
    }
}

/// Apply a patch to an entity's current frontmatter entries.
pub fn patch_frontmatter(existing: Vec<(String, Json)>, new_id: &str, patch: &EntityPatch) -> (r: Result<Vec<(String, Json)>, String>)
    ensures
        match r {
            Ok(es) => patch_frontmatter_spec(entries_view(existing@), new_id@, *patch) == Ok::<
                Seq<(Seq<char>, JsonV)>,
                Seq<char>,
            >(entries_view(es@)),
            Err(e) => patch_frontmatter_spec(entries_view(existing@), new_id@, *patch) == Err::<
                Seq<(Seq<char>, JsonV)>,
                Seq<char>,
            >(e@),
        },
{
    let mut es = existing;
    upsert_exec(&mut es, "id", jstr(new_id));
    upsert_opt_exec(&mut es, "title", &patch.title);
    upsert_opt_exec(&mut es, "lens", &patch.lens);
    if let Some(lp) = &patch.license_provenance {
        if let Err(e) = validate_license(lp.as_str()) {
            return Err(e);
        }
    }
    upsert_opt_exec(&mut es, "license_provenance", &patch.license_provenance);
    match &patch.frontmatter {
        Some(extra) => {
            let ghost all = entries_view(es@);
            let mut kept: Vec<(String, Json)> = Vec::new();
            let mut j: usize = 0;
            while j < es.len()
                invariant
                    j <= es@.len(),
                    all == entries_view(es@),
                    entries_view(kept@) == canonical_only(all, j as int),
                decreases es@.len() - j,
            {
                let k = es[j].0.as_str();
                if str_eq(k, "id") || str_eq(k, "title") || str_eq(k, "type") || str_eq(k, "campaign_id")
                    || str_eq(k, "lens") || str_eq(k, "license_provenance") {
                    let ghost before = entries_view(kept@);
                    let v = es[j].1.deep_clone();
                    kept.push((k.to_owned(), v));
                    assert(entries_view(kept@) =~= before.push(all[j as int]));
                }
                j = j + 1;
            }
            es = kept;
            let ghost base = entries_view(es@);
            let mut i: usize = 0;
            while i < extra.len()
                invariant
                    i <= extra@.len(),
                    entries_view(es@) == merge_patch_extras(base, extra@, i as int),
                decreases extra@.len() - i,
            {
                let k = extra[i].0.as_str();
                if !(str_eq(k, "id") || str_eq(k, "campaign_id")) {
                    let v = extra[i].1.deep_clone();
                    upsert_exec(&mut es, k, v);
                }
                i = i + 1;
            }
        },
        None => {},
    }
    Ok(es)
}

/// The body after a patch: the patch's, else the current one.
pub fn patched_body(patch: &EntityPatch, current: &str) -> (r: String)
    ensures
        r@ == match patch.body {
            Some(b) => b@,
            None => current@,
        },
{
    match &patch.body {
        Some(b) => b.clone(),
        None => current.to_owned(),
    }
}

/// The first `n` entries of `extras` set into `es` in turn.
pub open spec fn upsert_all(es: Seq<(Seq<char>, JsonV)>, extras: Seq<(Seq<char>, JsonV)>, n: int) -> Seq<(Seq<char>, JsonV)>
    decreases n,
{
    if n <= 0 || n > extras.len() {
        es
    } else {
        let (k, v) = extras[n - 1];
        upsert(upsert_all(es, extras, n - 1), k, v)
    }
}

/// The frontmatter an indexed entity is stored with: `title`, `type` and
/// `lens`, each where present, then the file's other keys in their order;
/// a key set again keeps its place and takes the later value.
pub open spec fn stored_frontmatter_spec(
    title: Option<String>,
    kind: Option<String>,
    lens: Option<String>,
    extras: Seq<(Seq<char>, JsonV)>,
) -> Seq<(Seq<char>, JsonV)> {
    let named = upsert_opt(upsert_opt(upsert_opt(Seq::empty(), "title"@, title), "type"@, kind), "lens"@, lens);
    upsert_all(named, extras, extras.len() as int)
}

/// Build the frontmatter stored in an entity row from the file's title,
/// type and lens and its other keys.
pub fn stored_frontmatter(
    title: &Option<String>,
    kind: &Option<String>,
    lens: &Option<String>,
    extras: Vec<(String, Json)>,
) -> (r: Vec<(String, Json)>)
    ensures
        entries_view(r@) == stored_frontmatter_spec(*title, *kind, *lens, entries_view(extras@)),
{
    let mut es: Vec<(String, Json)> = Vec::new();
    assert(entries_view(es@) =~= Seq::<(Seq<char>, JsonV)>::empty());
    upsert_opt_exec(&mut es, "title", title);
    upsert_opt_exec(&mut es, "type", kind);
    upsert_opt_exec(&mut es, "lens", lens);
    let ghost named = entries_view(es@);
    let ghost xv = entries_view(extras@);
    let mut i: usize = 0;
    while i < extras.len()
        invariant
            i <= extras@.len(),
            xv == entries_view(extras@),
            entries_view(es@) == upsert_all(named, xv, i as int),
        decreases extras@.len() - i,
    {
        let k = extras[i].0.as_str();
        let v = extras[i].1.deep_clone();
        assert(xv[i as int] == (k@, extras@[i as int].1@));
        upsert_exec(&mut es, k, v);
        i = i + 1;
    }
    es
}

/// Looking a key up after an upsert: the upserted key gives the new
/// value, every other key what it gave before.
proof fn lemma_upsert_get(es: Seq<(Seq<char>, JsonV)>, k: Seq<char>, v: JsonV, q: Seq<char>)
    ensures
        entry_get(upsert(es, k, v), q) == if q == k {
            Some(v)
        } else {
            entry_get(es, q)
        },
{
    lemma_obj_find_range(es, k, 0);
    lemma_obj_find_range(es, q, 0);
    match obj_find(es, k, 0) {
        Some(i) => {
            let t = es.update(i, (k, v));
            assert forall|j: int| 0 <= j < es.len() implies es[j].0 == #[trigger] t[j].0 by {
                if j == i {
                    assert(t[j] == (k, v));
                }
            }
            lemma_find_same_keys(es, t, q, 0);
            if q == k {
                assert(t[i].1 == v);
            } else if let Some(p) = obj_find(es, q, 0) {
                assert(p != i);
                assert(t[p] == es[p]);
            }
        },
        None => {
            lemma_get_push(es, (k, v), q);
            if q == k {
                assert(entry_get(es, q) is None);
            }
        },
    }
}

proof fn lemma_upsert_opt_get(es: Seq<(Seq<char>, JsonV)>, k: Seq<char>, v: Option<String>, q: Seq<char>)
    requires
        q != k,
    ensures
        entry_get(upsert_opt(es, k, v), q) == entry_get(es, q),
{
    if let Some(x) = v {
        lemma_upsert_get(es, k, JsonV::Str(x@), q);
    }
}

proof fn lemma_merge_extras_keeps(es: Seq<(Seq<char>, JsonV)>, extras: Seq<(String, Json)>, n: int, q: Seq<char>)
    requires
        reserved_key(q),
    ensures
        entry_get(merge_extras(es, extras, n), q) == entry_get(es, q),
    decreases n,
{
    if 0 < n <= extras.len() {
        lemma_merge_extras_keeps(es, extras, n - 1, q);
        let (k, v) = extras[n - 1];
        if !reserved_key(k@) {
            lemma_upsert_get(merge_extras(es, extras, n - 1), k@, v@, q);
        }
    }
}

proof fn lemma_merge_patch_extras_keeps(es: Seq<(Seq<char>, JsonV)>, extras: Seq<(String, Json)>, n: int, q: Seq<char>)
    requires
        patch_reserved(q),
    ensures
        entry_get(merge_patch_extras(es, extras, n), q) == entry_get(es, q),
    decreases n,
{
    if 0 < n <= extras.len() {
        lemma_merge_patch_extras_keeps(es, extras, n - 1, q);
        let (k, v) = extras[n - 1];
        if !patch_reserved(k@) {
            lemma_upsert_get(merge_patch_extras(es, extras, n - 1), k@, v@, q);
        }
    }
}

proof fn lemma_canonical_only_get(es: Seq<(Seq<char>, JsonV)>, n: int, q: Seq<char>)
    requires
        canonical_key(q),
        0 <= n <= es.len(),
    ensures
        entry_get(canonical_only(es, n), q) == entry_get(es.take(n), q),
    decreases n,
{
    if n == 0 {
        assert(es.take(0) =~= Seq::<(Seq<char>, JsonV)>::empty());
        assert(canonical_only(es, 0) =~= Seq::<(Seq<char>, JsonV)>::empty());
    } else {
        lemma_canonical_only_get(es, n - 1, q);
        assert(es.take(n) =~= es.take(n - 1).push(es[n - 1]));
        lemma_get_push(es.take(n - 1), es[n - 1], q);
        if canonical_key(es[n - 1].0) {
            lemma_get_push(canonical_only(es, n - 1), es[n - 1], q);
        }
    }
}

proof fn lemma_key_literals()
    ensures
        "id"@ != "title"@,
        "id"@ != "type"@,
        "id"@ != "campaign_id"@,
        "id"@ != "lens"@,
        "id"@ != "license_provenance"@,
        "title"@ != "type"@,
        "title"@ != "campaign_id"@,
        "title"@ != "lens"@,
        "title"@ != "license_provenance"@,
        "type"@ != "campaign_id"@,
        "type"@ != "lens"@,
        "type"@ != "license_provenance"@,
        "campaign_id"@ != "lens"@,
        "campaign_id"@ != "license_provenance"@,
        "lens"@ != "license_provenance"@,
{
    reveal_strlit("id");
    reveal_strlit("title");
    reveal_strlit("type");
    reveal_strlit("campaign_id");
    reveal_strlit("lens");
    reveal_strlit("license_provenance");
    assert("id"@.len() == 2);
    assert("title"@.len() == 5);
    assert("type"@.len() == 4);
    assert("campaign_id"@.len() == 11);
    assert("lens"@.len() == 4);
    assert("license_provenance"@.len() == 18);
    assert("type"@[0] != "lens"@[0]);
}

/// A new entity's id, title, type and campaign are the ones the request
/// names: its extra frontmatter cannot override them.
pub proof fn law_new_entity_owns_canonical_fields(id: Seq<char>, input: EntityInput)
    ensures
        new_frontmatter_spec(id, input) matches Ok(es) ==> {
            &&& entry_get(es, "id"@) == Some(JsonV::Str(id))
            &&& entry_get(es, "title"@) == Some(JsonV::Str(input.title@))
            &&& entry_get(es, "type"@) == Some(JsonV::Str(input.kind@))
            &&& entry_get(es, "campaign_id"@) == Some(JsonV::Str(input.campaign_id@))
        },
{
    let lp = match input.license_provenance {
        Some(l) => l@,
        None => "homebrew"@,
    };
    if is_license_provenance(lp) {
        lemma_key_literals();
        let head = seq![
            ("id"@, JsonV::Str(id)),
            ("title"@, JsonV::Str(input.title@)),
            ("type"@, JsonV::Str(input.kind@)),
            ("campaign_id"@, JsonV::Str(input.campaign_id@)),
        ];
        let mid = head + (match input.lens {
            Some(l) => seq![("lens"@, JsonV::Str(l@))],
            None => Seq::empty(),
        });
        let base = mid + seq![("license_provenance"@, JsonV::Str(lp))];
        assert(mid[0] == head[0] && mid[1] == head[1] && mid[2] == head[2] && mid[3] == head[3]);
        assert(base[0] == head[0] && base[1] == head[1] && base[2] == head[2] && base[3] == head[3]);
        assert(obj_find(base, "id"@, 0) == Some(0int));
        assert(obj_find(base, "title"@, 1) == Some(1int));
        assert(obj_find(base, "title"@, 0) == Some(1int));
        assert(obj_find(base, "type"@, 2) == Some(2int));
        assert(obj_find(base, "type"@, 1) == Some(2int));
        assert(obj_find(base, "type"@, 0) == Some(2int));
        assert(obj_find(base, "campaign_id"@, 3) == Some(3int));
        assert(obj_find(base, "campaign_id"@, 2) == Some(3int));
        assert(obj_find(base, "campaign_id"@, 1) == Some(3int));
        assert(obj_find(base, "campaign_id"@, 0) == Some(3int));
        let n = input.frontmatter@.len() as int;
        lemma_merge_extras_keeps(base, input.frontmatter@, n, "id"@);
        lemma_merge_extras_keeps(base, input.frontmatter@, n, "title"@);
        lemma_merge_extras_keeps(base, input.frontmatter@, n, "type"@);
        lemma_merge_extras_keeps(base, input.frontmatter@, n, "campaign_id"@);
    }
}

/// A patch sets the entity's id, and never changes the campaign it
/// belongs to.
pub proof fn law_patch_keeps_campaign(es: Seq<(Seq<char>, JsonV)>, new_id: Seq<char>, p: EntityPatch)
    ensures
        patch_frontmatter_spec(es, new_id, p) matches Ok(r) ==> {
            &&& entry_get(r, "id"@) == Some(JsonV::Str(new_id))
            &&& entry_get(r, "campaign_id"@) == entry_get(es, "campaign_id"@)
        },
{
    lemma_key_literals();
    let s1 = upsert(es, "id"@, JsonV::Str(new_id));
    let s2 = upsert_opt(s1, "title"@, p.title);
    let s3 = upsert_opt(s2, "lens"@, p.lens);
    let s4 = upsert_opt(s3, "license_provenance"@, p.license_provenance);
    lemma_upsert_get(es, "id"@, JsonV::Str(new_id), "id"@);
    lemma_upsert_get(es, "id"@, JsonV::Str(new_id), "campaign_id"@);
    lemma_upsert_opt_get(s1, "title"@, p.title, "id"@);
    lemma_upsert_opt_get(s1, "title"@, p.title, "campaign_id"@);
    lemma_upsert_opt_get(s2, "lens"@, p.lens, "id"@);
    lemma_upsert_opt_get(s2, "lens"@, p.lens, "campaign_id"@);
    lemma_upsert_opt_get(s3, "license_provenance"@, p.license_provenance, "id"@);
    lemma_upsert_opt_get(s3, "license_provenance"@, p.license_provenance, "campaign_id"@);
    if let Some(extra) = p.frontmatter {
        let c = canonical_only(s4, s4.len() as int);
        assert(s4.take(s4.len() as int) =~= s4);
        lemma_canonical_only_get(s4, s4.len() as int, "id"@);
        lemma_canonical_only_get(s4, s4.len() as int, "campaign_id"@);
        lemma_merge_patch_extras_keeps(c, extra@, extra@.len() as int, "id"@);
        lemma_merge_patch_extras_keeps(c, extra@, extra@.len() as int, "campaign_id"@);
    }
}

/// Where an updated entity goes: its new id (changed only by a new
/// title) and the file it is written to.
#[derive(Debug)]
pub struct UpdatePlan {
    pub new_id: String,
    pub target_file: String,
}

pub open spec fn update_plan_spec(id: Seq<char>, campaign: Seq<char>, ty: Seq<char>, title: Seq<char>, new_title: Option<Seq<char>>) -> Result<(Seq<char>, Seq<char>), Seq<char>> {
    let t = match new_title {
        Some(n) => n,
        None => title,
    };
    match entity_file_spec(campaign, ty, t) {
        Err(e) => Err(e),
        Ok(f) => match new_title {
            None => Ok((id, f)),
            Some(n) => match entity_id_spec(campaign, ty, n) {
                Ok(i) => Ok((i, f)),
                Err(e) => Err(e),
            },
        },
    }
}

/// Plan the update of entity `id` (of `campaign`, `type_`, `title`) whose
/// patch may retitle it.
pub fn plan_update(id: &str, campaign: &str, type_: &str, title: &str, new_title: &Option<String>) -> (r: Result<UpdatePlan, String>)
    ensures
        match r {
            Ok(p) => update_plan_spec(id@, campaign@, type_@, title@, opt_view(*new_title)) == Ok::<
                (Seq<char>, Seq<char>),
                Seq<char>,
            >((p.new_id@, p.target_file@)),
            Err(e) => update_plan_spec(id@, campaign@, type_@, title@, opt_view(*new_title)) == Err::<
                (Seq<char>, Seq<char>),
                Seq<char>,
            >(e@),
        },
{
    let t: &str = match new_title {
        Some(n) => n.as_str(),
        None => title,
    };
    let target_file = match entity_file(campaign, type_, t) {
        Ok(f) => f,
        Err(e) => return Err(e),
    };
    let new_id = match new_title {
        Some(n) => match entity_id(campaign, type_, n.as_str()) {
            Ok(i) => i,
            Err(e) => return Err(e),
        },
        None => id.to_owned(),
    };
    Ok(UpdatePlan { new_id, target_file })
}

/// Code-point order on texts (the order of `String`'s `Ord`: UTF-8
/// bytes compare as their code points do).
pub open spec fn text_lt(a: Seq<char>, b: Seq<char>) -> bool
    decreases a.len(),
{
    if a.len() == 0 {
        b.len() > 0
    } else if b.len() == 0 {
        false
    } else if a[0] < b[0] {
        true
    } else if a[0] > b[0] {
        false
    } else {
        text_lt(a.skip(1), b.skip(1))
    }
}

fn text_lt_exec(a: &str, b: &str) -> (r: bool)
    ensures
        r == text_lt(a@, b@),
{
    let x = chars_of(a);
    let y = chars_of(b);
    let mut i: usize = 0;
    assert(x@.skip(0) =~= x@);
    assert(y@.skip(0) =~= y@);
    while i < x.len() && i < y.len() && x[i] == y[i]
        invariant
            i <= x@.len(),
            i <= y@.len(),
            x@ == a@,
            y@ == b@,
            text_lt(a@, b@) == text_lt(x@.skip(i as int), y@.skip(i as int)),
        decreases x@.len() - i,
    {
        assert(x@.skip(i as int).skip(1) =~= x@.skip(i + 1));
        assert(y@.skip(i as int).skip(1) =~= y@.skip(i + 1));
        i = i + 1;
    }
    if i == x.len() {
        assert(x@.skip(i as int).len() == 0);
        i < y.len()
    } else if i == y.len() {
        assert(y@.skip(i as int).len() == 0);
        false
    } else {
        assert(x@.skip(i as int)[0] == x@[i as int]);
        assert(y@.skip(i as int)[0] == y@[i as int]);
        x[i] < y[i]
    }
}

proof fn lemma_text_lt_irrefl(a: Seq<char>)
    ensures
        !text_lt(a, a),
    decreases a.len(),
{
    if a.len() > 0 {
        lemma_text_lt_irrefl(a.skip(1));
    }
}

proof fn lemma_text_lt_total(a: Seq<char>, b: Seq<char>)
    ensures
        a != b ==> (text_lt(a, b) || text_lt(b, a)),
        !(text_lt(a, b) && text_lt(b, a)),
    decreases a.len(),
{
    if a.len() > 0 && b.len() > 0 {
        lemma_text_lt_total(a.skip(1), b.skip(1));
        if a[0] == b[0] && a.skip(1) == b.skip(1) {
            assert forall|k: int| 0 <= k < a.len() implies a[k] == b[k] by {
                if k > 0 {
                    assert(a[k] == a.skip(1)[k - 1]);
                    assert(b[k] == b.skip(1)[k - 1]);
                }
            }
            assert(a =~= b);
        }
    } else if a.len() == 0 && b.len() == 0 {
        assert(a =~= b);
    }
}

proof fn lemma_text_lt_trans(a: Seq<char>, b: Seq<char>, c: Seq<char>)
    requires
        text_lt(a, b),
        text_lt(b, c),
    ensures
        text_lt(a, c),
    decreases a.len(),
{
    if a.len() > 0 && b.len() > 0 && c.len() > 0 {
        if a[0] == b[0] && b[0] == c[0] {
            lemma_text_lt_trans(a.skip(1), b.skip(1), c.skip(1));
        }
    }
}

pub struct CampaignV {
    pub id: Seq<char>,
    pub name: Seq<char>,
    pub default_lens: Option<Seq<char>>,
    pub entity_count: i64,
}

impl View for Campaign {
    type V = CampaignV;

    open spec fn view(&self) -> CampaignV {
        CampaignV { id: self.id@, name: self.name@, default_lens: opt_view(self.default_lens), entity_count: self.entity_count }
    }
}

/// The campaigns known from indexed entities (`rows`: id and entity
/// count), then those only present as directories, each once.
pub open spec fn known_campaigns(rows: Seq<(String, i64)>, dirs: Seq<String>, n: int) -> Seq<CampaignV>
    decreases n,
{
    if n <= 0 || n > dirs.len() {
        rows.map_values(|r: (String, i64)| CampaignV { id: r.0@, name: r.0@, default_lens: None, entity_count: r.1 })
    } else {
        let prev = known_campaigns(rows, dirs, n - 1);
        if exists|i: int| 0 <= i < prev.len() && #[trigger] prev[i].id == dirs[n - 1]@ {
            prev
        } else {
            prev.push(CampaignV { id: dirs[n - 1]@, name: dirs[n - 1]@, default_lens: None, entity_count: 0 })
        }
    }
}

pub open spec fn sorted_by_id(s: Seq<CampaignV>) -> bool {
    forall|i: int, j: int| 0 <= i < j < s.len() ==> !text_lt(#[trigger] s[j].id, #[trigger] s[i].id)
}

fn copy_campaign(c: &Campaign) -> (r: Campaign)
    ensures
        r@ == c@,
{
    Campaign {
        id: c.id.clone(),
        name: c.name.clone(),
        default_lens: match &c.default_lens {
            Some(l) => Some(l.clone()),
            None => None,
        },
        entity_count: c.entity_count,
    }
}

/// The campaign list: every campaign with indexed entities (with its
/// count), then every campaign directory not yet listed (count 0), all
/// ordered by id.
pub fn merge_campaigns(rows: &Vec<(String, i64)>, dirs: &Vec<String>) -> (r: Vec<Campaign>)
    ensures
        ({
            let k = known_campaigns(rows@, dirs@, dirs@.len() as int);
            &&& r@.len() == k.len()
            &&& sorted_by_id(r@.map_values(|c: Campaign| c@))
            &&& forall|i: int| 0 <= i < k.len() ==> r@.map_values(|c: Campaign| c@).contains(#[trigger] k[i])
        }),
{
    let mut all: Vec<Campaign> = Vec::new();
    let mut i: usize = 0;
    while i < rows.len()
        invariant
            i <= rows@.len(),
            all@.map_values(|c: Campaign| c@) =~= rows@.take(i as int).map_values(
                |r: (String, i64)| CampaignV { id: r.0@, name: r.0@, default_lens: None, entity_count: r.1 },
            ),
        decreases rows@.len() - i,
    {
        let c = Campaign { id: rows[i].0.clone(), name: rows[i].0.clone(), default_lens: None, entity_count: rows[i].1 };
        let ghost before = all@;
        all.push(c);
        assert(all@.map_values(|c: Campaign| c@) =~= before.map_values(|c: Campaign| c@).push(c@));
        assert(rows@.take(i + 1).map_values(
            |r: (String, i64)| CampaignV { id: r.0@, name: r.0@, default_lens: None, entity_count: r.1 },
        ) =~= rows@.take(i as int).map_values(
            |r: (String, i64)| CampaignV { id: r.0@, name: r.0@, default_lens: None, entity_count: r.1 },
        ).push(c@));
        i = i + 1;
    }
    assert(rows@.take(rows@.len() as int) =~= rows@);
    let mut d: usize = 0;
    while d < dirs.len()
        invariant
            d <= dirs@.len(),
            all@.map_values(|c: Campaign| c@) == known_campaigns(rows@, dirs@, d as int),
        decreases dirs@.len() - d,
    {
        let ghost prev = all@.map_values(|c: Campaign| c@);
        let mut present = false;
        let mut j: usize = 0;
        while j < all.len()
            invariant
                j <= all@.len(),
                d < dirs@.len(),
                prev == all@.map_values(|c: Campaign| c@),
                present <==> exists|k: int| 0 <= k < j && #[trigger] prev[k].id == dirs@[d as int]@,
            decreases all@.len() - j,
        {
            if str_eq(all[j].id.as_str(), dirs[d].as_str()) {
                assert(prev[j as int].id == dirs@[d as int]@);
                present = true;
            }
            j = j + 1;
        }
        if !present {
            let c = Campaign { id: dirs[d].clone(), name: dirs[d].clone(), default_lens: None, entity_count: 0 };
            let ghost before = all@;
            all.push(c);
            assert(all@.map_values(|c: Campaign| c@) =~= before.map_values(|c: Campaign| c@).push(c@));
        }
        d = d + 1;
    }
    let ghost k = all@.map_values(|c: Campaign| c@);
    // Insertion sort by id, into `out`.
    let mut out: Vec<Campaign> = Vec::new();
    let mut m: usize = 0;
    while m < all.len()
        invariant
            m <= all@.len(),
            k == all@.map_values(|c: Campaign| c@),
            out@.len() == m,
            sorted_by_id(out@.map_values(|c: Campaign| c@)),
            forall|q: int| 0 <= q < m ==> out@.map_values(|c: Campaign| c@).contains(#[trigger] k[q]),
        decreases all@.len() - m,
    {
        let ghost ov = out@.map_values(|c: Campaign| c@);
        let x = copy_campaign(&all[m]);
        let mut pos: usize = 0;
        while pos < out.len() && !text_lt_exec(x.id.as_str(), out[pos].id.as_str())
            invariant
                pos <= out@.len(),
                ov == out@.map_values(|c: Campaign| c@),
                forall|q: int| 0 <= q < pos ==> !text_lt(x.id@, #[trigger] ov[q].id),
            decreases out@.len() - pos,
        {
            pos = pos + 1;
        }
        let ghost xv = x@;
        out.insert(pos, x);
        proof {
            let nv = out@.map_values(|c: Campaign| c@);
            assert(nv =~= ov.insert(pos as int, xv));
            assert forall|a: int, b: int| 0 <= a < b < nv.len() implies !text_lt(#[trigger] nv[b].id, #[trigger] nv[a].id) by {
                if b < pos {
                    assert(nv[a] == ov[a] && nv[b] == ov[b]);
                } else if b == pos {
                    assert(nv[a] == ov[a]);
                    assert(!text_lt(xv.id, ov[a].id));
                } else if a == pos {
                    assert(nv[b] == ov[b - 1]);
                    if b - 1 == pos {
                        assert(text_lt(xv.id, ov[pos as int].id));
                        lemma_text_lt_total(xv.id, ov[pos as int].id);
                    } else {
                        assert(text_lt(xv.id, ov[pos as int].id));
                        assert(!text_lt(ov[b - 1].id, ov[pos as int].id));
                        lemma_text_lt_total(ov[b - 1].id, ov[pos as int].id);
                        if text_lt(ov[b - 1].id, xv.id) {
                            lemma_text_lt_trans(ov[b - 1].id, xv.id, ov[pos as int].id);
                        }
                    }
                } else if a < pos {
                    assert(nv[a] == ov[a] && nv[b] == ov[b - 1]);
                } else {
                    assert(nv[a] == ov[a - 1] && nv[b] == ov[b - 1]);
                }
            }
            assert forall|q: int| 0 <= q < m + 1 implies nv.contains(#[trigger] k[q]) by {
                if q == m {
                    assert(nv[pos as int] == xv);
                } else {
                    assert(ov.contains(k[q]));
                    let w = choose|w: int| 0 <= w < ov.len() && ov[w] == k[q];
                    if w < pos {
                        assert(nv[w] == ov[w]);
                    } else {
                        assert(nv[w + 1] == ov[w]);
                    }
                }
            }
        }
        m = m + 1;
    }
    out
}

} // verus!
