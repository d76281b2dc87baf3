//! Markdown documents with YAML frontmatter, as the bundled lens packs
//! and the vault store them: splitting the frontmatter from the body.

use vstd::prelude::*;
use vstd::string::StrSliceExecFns;
use vstd::string::StringExecFns;
use crate::text::{chars_of, has_prefix, has_prefix_at, slug, slug_spec};
use crate::vault::{Frontmatter, or_default};

verus! {

/// `s` without its leading byte-order marks.
pub open spec fn skip_bom(s: Seq<char>) -> Seq<char>
    decreases s.len(),
{
    if s.len() > 0 && s[0] == '\u{FEFF}' {
        skip_bom(s.skip(1))
    } else {
        s
    }
}

/// `s` without its leading `\r` and `\n` chars.
pub open spec fn skip_newlines(s: Seq<char>) -> Seq<char>
    decreases s.len(),
{
    if s.len() > 0 && (s[0] == '\r' || s[0] == '\n') {
        skip_newlines(s.skip(1))
    } else {
        s
    }
}

pub open spec fn delim() -> Seq<char> {
    seq!['-', '-', '-']
}

pub open spec fn closing() -> Seq<char> {
    seq!['\n', '-', '-', '-']
}

/// First index `p >= i` where `s` continues with a newline and `---`.
pub open spec fn find_closing(s: Seq<char>, i: int) -> Option<int>
    decreases s.len() - i,
{
    if i < 0 || i + 4 > s.len() {
        None
    } else if s.subrange(i, i + 4) == closing() {
        Some(i)
    } else {
        find_closing(s, i + 1)
    }
}

/// Where the frontmatter of `s` lies, as offsets into `s`: the YAML text
/// (`yaml_start..yaml_end`) and the start of the body. `None` when the
/// text (after any byte-order marks) does not open with `---` or the
/// block is never closed by a line starting `---`.
pub open spec fn frontmatter_spec(s: Seq<char>) -> Option<(int, int, int)> {
    let t = skip_bom(s);
    let off = s.len() - t.len();
    if !has_prefix(t, delim()) {
        None
    } else {
        let a = skip_newlines(t.skip(3));
        let a_off = s.len() - a.len();
        match find_closing(a, 0) {
            Some(e) => {
                let rest = a.skip(e + 4);
                let body = skip_newlines(rest);
                Some((a_off, a_off + e, s.len() - body.len()))
            },
            None => None,
        }
    }
}

proof fn lemma_skip_bom_suffix(s: Seq<char>)
    ensures
        skip_bom(s).len() <= s.len(),
        skip_bom(s) == s.skip(s.len() - skip_bom(s).len()),
    decreases s.len(),
{
    if s.len() > 0 && s[0] == '\u{FEFF}' {
        lemma_skip_bom_suffix(s.skip(1));
        assert(s.skip(1).skip(s.skip(1).len() - skip_bom(s.skip(1)).len()) =~= s.skip(
            s.len() - skip_bom(s).len(),
        ));
    } else {
        assert(s.skip(0) =~= s);
    }
}

pub proof fn lemma_skip_newlines_suffix(s: Seq<char>)
    ensures
        skip_newlines(s).len() <= s.len(),
        skip_newlines(s) == s.skip(s.len() - skip_newlines(s).len()),
    decreases s.len(),
{
    if s.len() > 0 && (s[0] == '\r' || s[0] == '\n') {
        lemma_skip_newlines_suffix(s.skip(1));
        assert(s.skip(1).skip(s.skip(1).len() - skip_newlines(s.skip(1)).len()) =~= s.skip(
            s.len() - skip_newlines(s).len(),
        ));
    } else {
        assert(s.skip(0) =~= s);
    }
}

/// Index of the first char of `v[i..]` that is not a byte-order mark.
pub(crate) fn skip_bom_at(v: &[char], i: usize) -> (k: usize)
    requires
        i <= v@.len(),
    ensures
        i <= k <= v@.len(),
        skip_bom(v@.skip(i as int)) == v@.skip(k as int),
{
    let mut k = i;
    while k < v.len() && v[k] == '\u{FEFF}'
        invariant
            i <= k <= v@.len(),
            skip_bom(v@.skip(i as int)) == skip_bom(v@.skip(k as int)),
        decreases v@.len() - k,
    {
        assert(v@.skip(k as int).skip(1) =~= v@.skip(k + 1));
        k = k + 1;
    }
    k
}

/// Index of the first char of `v[i..]` that is neither `\r` nor `\n`.
fn skip_newlines_at(v: &[char], i: usize) -> (k: usize)
    requires
        i <= v@.len(),
    ensures
        i <= k <= v@.len(),
        skip_newlines(v@.skip(i as int)) == v@.skip(k as int),
{
    let mut k = i;
    while k < v.len() && (v[k] == '\r' || v[k] == '\n')
        invariant
            i <= k <= v@.len(),
            skip_newlines(v@.skip(i as int)) == skip_newlines(v@.skip(k as int)),
        decreases v@.len() - k,
    {
        assert(v@.skip(k as int).skip(1) =~= v@.skip(k + 1));
        k = k + 1;
    }
    k
}

/// The offsets of the frontmatter of `s` (see `frontmatter_spec`).
pub fn frontmatter_bounds(v: &[char]) -> (r: Option<(usize, usize, usize)>)
    ensures
        match r {
            Some((a, b, c)) => frontmatter_spec(v@) == Some((a as int, b as int, c as int)) && a <= b
                <= c <= v@.len(),
            None => frontmatter_spec(v@) is None,
        },
{
    let ghost s = v@;
    let t0 = skip_bom_at(v, 0);
    assert(s.skip(0) =~= s);
    proof {
        lemma_skip_bom_suffix(s);
    }
    let dashes: [char; 3] = ['-', '-', '-'];
    assert(dashes@ =~= delim());
    assert(v@.subrange(t0 as int, v@.len() as int) =~= v@.skip(t0 as int));
    if !has_prefix_at(v, t0, v.len(), &dashes) {
        return None;
    }
    let a0 = skip_newlines_at(v, t0 + 3);
    assert(skip_bom(s).skip(3) =~= s.skip(t0 + 3));
    let ghost a = s.skip(a0 as int);
    let mut p = a0;
    assert(find_closing(a, 0) == find_closing(a, (p - a0) as int));
    while v.len() >= 4 && p <= v.len() - 4
        invariant
            a0 <= p <= v@.len(),
            s == v@,
            a == v@.skip(a0 as int),
            find_closing(a, 0) == find_closing(a, (p - a0) as int),
            skip_bom(s) == s.skip(t0 as int),
            has_prefix(skip_bom(s), delim()),
            skip_bom(s).skip(3) == s.skip(t0 + 3),
            skip_newlines(s.skip(t0 + 3)) == a,
        decreases v@.len() - p,
    {
        let ghost q = (p - a0) as int;
        assert(a.subrange(q, q + 4) =~= v@.subrange(p as int, p + 4));
        if v[p] == '\n' && v[p + 1] == '-' && v[p + 2] == '-' && v[p + 3] == '-' {
            assert(v@.subrange(p as int, p + 4) =~= closing());
            let c = skip_newlines_at(v, p + 4);
            proof {
                assert(a.skip(q + 4) =~= v@.skip(p + 4));
                assert(a.subrange(q, q + 4) == closing());
                assert(find_closing(a, q) == Some(q));
                assert(find_closing(a, 0) == Some(q));
                let t = skip_bom(s);
                assert(t == s.skip(t0 as int));
                assert(has_prefix(t, delim()));
                assert(t.skip(3) =~= s.skip(t0 + 3));
                assert(skip_newlines(t.skip(3)) == a);
                assert(s.len() - a.len() == a0);
                let body = skip_newlines(a.skip(q + 4));
                assert(body == v@.skip(c as int));
                assert(s.len() - body.len() == c);
            }
            return Some((a0, p, c));
        }
        assert(v@.subrange(p as int, p + 4) != closing()) by {
            if v@.subrange(p as int, p + 4) == closing() {
                assert(v@.subrange(p as int, p + 4)[0] == v@[p as int]);
                assert(v@.subrange(p as int, p + 4)[1] == v@[p + 1]);
                assert(v@.subrange(p as int, p + 4)[2] == v@[p + 2]);
                assert(v@.subrange(p as int, p + 4)[3] == v@[p + 3]);
            }
        }
        p = p + 1;
    }
    proof {
        let q = (p - a0) as int;
        assert(q + 4 > a.len());
        assert(find_closing(a, q) is None);
        let t = skip_bom(s);
        assert(t == s.skip(t0 as int));
        assert(t.skip(3) =~= s.skip(t0 + 3));
        assert(skip_newlines(t.skip(3)) == a);
    }
    None
}

/// Split a markdown document into its YAML frontmatter and its body. The
/// leading byte-order marks are dropped; without a frontmatter block the
/// YAML is empty and the body is the whole (mark-less) text.
pub open spec fn split_frontmatter_spec(s: Seq<char>) -> (Seq<char>, Seq<char>) {
    match frontmatter_spec(s) {
        Some((a, b, c)) => (s.subrange(a, b), s.skip(c)),
        None => (Seq::empty(), skip_bom(s)),
    }
}

/// Split a markdown document into its YAML frontmatter and its body.
pub fn split_frontmatter(s: &str) -> (r: (&str, &str))
    ensures
        (r.0@, r.1@) == split_frontmatter_spec(s@),
{
    let v = chars_of(s);
    match frontmatter_bounds(v.as_slice()) {
        Some((a, b, c)) => {
            let yaml = s.substring_char(a, b);
            let body = s.substring_char(c, v.len());
            assert(s@.subrange(c as int, s@.len() as int) =~= s@.skip(c as int));
            (yaml, body)
        },
        None => {
            let k = bom_end(v.as_slice());
            let body = s.substring_char(k, v.len());
            proof {
                reveal_strlit("");
            }
            assert(s@.subrange(k as int, s@.len() as int) =~= s@.skip(k as int));
            ("", body)
        },
    }
}

/// Index just past the leading byte-order marks of `v`.
pub fn bom_end(v: &[char]) -> (k: usize)
    ensures
        k <= v@.len(),
        skip_bom(v@) == v@.skip(k as int),
{
    let k = skip_bom_at(v, 0);
    assert(v@.skip(0) =~= v@);
    k
}

/// The hash `std::hash::DefaultHasher` (built by `DefaultHasher::new`,
/// fixed keys) gives a string. Std leaves the algorithm unspecified
/// across releases; within one build it depends on the string alone.
pub uninterp spec fn default_str_hash(s: Seq<char>) -> u64;

/// `BuildHasher::hash_one` of `BuildHasherDefault<DefaultHasher>`: a
/// fresh `DefaultHasher::new()` fed the string, then `finish`.
#[verifier::external_body]
fn hash_str(s: &str) -> (h: u64)
    ensures
        h == default_str_hash(s@),
{
    std::hash::BuildHasher::hash_one(&std::hash::BuildHasherDefault::<std::hash::DefaultHasher>::default(), s)
}

/// A lower-case hex digit.
pub open spec fn hex_digit(d: nat) -> char {
    if d < 10 {
        ((d + 48) as u8) as char
    } else {
        ((d + 87) as u8) as char
    }
}

/// The last `k` hex digits of `n`, most significant first.
pub open spec fn hex_digits(n: nat, k: nat) -> Seq<char>
    decreases k,
{
    if k == 0 {
        Seq::empty()
    } else {
        hex_digits(n / 16, (k - 1) as nat).push(hex_digit(n % 16))
    }
}

fn push_hex(out: &mut Vec<char>, n: u64, k: u64)
    ensures
        final(out)@ == old(out)@ + hex_digits(n as nat, k as nat),
    decreases k,
{
    if k == 0 {
        assert(old(out)@ + hex_digits(n as nat, 0) =~= old(out)@);
        return;
    }
    push_hex(out, n / 16, k - 1);
    let d: u8 = (n % 16) as u8;
    let c: char = if d < 10 {
        (d + 48) as char
    } else {
        (d + 87) as char
    };
    out.push(c);
    assert(hex_digits(n as nat, k as nat) == hex_digits((n / 16) as nat, (k - 1) as nat).push(hex_digit((n % 16) as nat)));
}

/// A content fingerprint: the `DefaultHasher` hash of the text as 16
/// lower-case hex digits (zero-padded).
pub fn simple_hash(s: &str) -> (r: String)
    ensures
        r@ == hex_digits(default_str_hash(s@) as nat, 16),
{
    let h = hash_str(s);
    let mut out: Vec<char> = Vec::new();
    push_hex(&mut out, h, 16);
    assert(out@ =~= Seq::<char>::empty() + hex_digits(h as nat, 16));
    crate::text::string_from_chars(out.as_slice())
}

proof fn lemma_hex_len(n: nat, k: nat)
    ensures
        hex_digits(n, k).len() == k,
    decreases k,
{
    if k > 0 {
        lemma_hex_len(n / 16, (k - 1) as nat);
    }
}

/// Every fingerprint is exactly 16 chars.
pub proof fn law_hash_is_16_hex_digits(s: Seq<char>)
    ensures
        hex_digits(default_str_hash(s) as nat, 16).len() == 16,
{
    lemma_hex_len(default_str_hash(s) as nat, 16);
}

/// Counts of one load of the bundled packs.
#[derive(Debug)]
pub struct LoadReport {
    pub packs_loaded: usize,
    pub entities_loaded: usize,
}

/// The row of one bundled markdown file.
#[derive(Debug)]
pub struct BundledEntry {
    pub id: String,
    pub entity_type: String,
    pub lens: String,
    pub license_provenance: String,
    pub file_path: String,
}

/// The row of a bundled file of pack `lens_id`: the frontmatter `id`, or
/// `<lens>:<slug of the title, else of the file stem, else "entry">`;
/// type `note`, the pack's lens and licence `homebrew` by default; the
/// path recorded as `bundled:<path>`.
pub fn plan_bundled_entry(fm: &Frontmatter, lens_id: &str, file_stem: Option<&str>, path_text: &str) -> (e: BundledEntry)
    ensures
        e.id@ == match fm.id {
            Some(i) => i@,
            None => lens_id@ + ":"@ + slug_spec(
                match fm.title {
                    Some(t) => t@,
                    None => match file_stem {
                        Some(f) => f@,
                        None => "entry"@,
                    },
                },
            ),
        },
        e.entity_type@ == or_default(fm.entity_type, "note"@),
        e.lens@ == or_default(fm.lens, lens_id@),
        e.license_provenance@ == or_default(fm.license_provenance, "homebrew"@),
        e.file_path@ == "bundled:"@ + path_text@,
{
    let id = match &fm.id {
        Some(i) => i.clone(),
        None => {
            let source: &str = match &fm.title {
                Some(t) => t.as_str(),
                None => match file_stem {
                    Some(f) => f,
                    None => "entry",
                },
            };
            let mut id = lens_id.to_owned();
            id.append(":");
            let sl = slug(source);
            id.append(sl.as_str());
            id
        },
    };
    let entity_type = match &fm.entity_type {
        Some(t) => t.clone(),
        None => "note".to_owned(),
    };
    let lens = match &fm.lens {
        Some(l) => l.clone(),
        None => lens_id.to_owned(),
    };
    let license_provenance = match &fm.license_provenance {
        Some(l) => l.clone(),
        None => "homebrew".to_owned(),
    };
    let mut file_path = "bundled:".to_owned();
    file_path.append(path_text);
    BundledEntry { id, entity_type, lens, license_provenance, file_path }
}

} // verus!
