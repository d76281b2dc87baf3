//! Retrieval helpers: paragraph chunking of entity bodies for embedding,
//! and reciprocal-rank fusion of full-text and vector hits.

use vstd::prelude::*;
use vstd::string::StringExecFns;
use crate::text::{nat_decimal, u64_to_string, chars_of, push_range, string_from_chars, trim_bounds, trim_spec, utf8_len,
    utf8_len_capped, lemma_utf8_len_concat};

verus! {

/// First index `p >= i` with `s[p] == s[p + 1] == '\n'`.
pub open spec fn find_double_nl(s: Seq<char>, i: int) -> Option<int>
    decreases s.len() - i,
{
    if i < 0 || i + 1 >= s.len() {
        None
    } else if s[i] == '\n' && s[i + 1] == '\n' {
        Some(i)
    } else {
        find_double_nl(s, i + 1)
    }
}

/// Merge a chunk with the next paragraph while it is shorter than this
/// many bytes (about 150 tokens).
pub const MIN_CHARS: usize = 600;

/// Close a chunk once it reaches this many bytes (about 500 tokens).
pub const MAX_CHARS: usize = 2000;

/// `str::split("\n\n")`: the pieces between separators, including empty
/// and final pieces.
pub open spec fn split_blank(s: Seq<char>) -> Seq<Seq<char>>
    decreases s.len(),
{
    match find_double_nl(s, 0) {
        Some(p) => if 0 <= p && p + 2 <= s.len() {
            seq![s.take(p)] + split_blank(s.skip(p + 2))
        } else {
            seq![s]
        },
        None => seq![s],
    }
}

/// Each piece trimmed; pieces that trim to nothing dropped.
pub open spec fn nonempty_trimmed(pieces: Seq<Seq<char>>) -> Seq<Seq<char>>
    decreases pieces.len(),
{
    if pieces.len() == 0 {
        Seq::empty()
    } else {
        let t = trim_spec(pieces[0]);
        if t.len() > 0 {
            seq![t] + nonempty_trimmed(pieces.skip(1))
        } else {
            nonempty_trimmed(pieces.skip(1))
        }
    }
}

/// The paragraphs of a body: blank-line separated, trimmed, non-empty.
pub open spec fn paragraphs(s: Seq<char>) -> Seq<Seq<char>> {
    nonempty_trimmed(split_blank(s))
}

pub open spec fn blank_sep() -> Seq<char> {
    seq!['\n', '\n']
}

/// Chunks closed so far and the chunk being filled.
pub type ChunkState = (Seq<Seq<char>>, Seq<char>);

/// Taking in one paragraph: it starts the chunk if there is none, joins
/// the chunk (after a blank line) while the chunk is under `MIN_CHARS`
/// bytes, else the chunk is closed and the paragraph starts the next one;
/// a chunk that reaches `MAX_CHARS` bytes is closed at once.
pub open spec fn chunk_step(st: ChunkState, p: Seq<char>) -> ChunkState {
    let out = st.0;
    let buf = st.1;
    let mid: ChunkState = if buf.len() == 0 {
        (out, p)
    } else if utf8_len(buf) < MIN_CHARS as nat {
        (out, buf + blank_sep() + p)
    } else {
        (out.push(buf), p)
    };
    if utf8_len(mid.1) >= MAX_CHARS as nat {
        (mid.0.push(mid.1), Seq::empty())
    } else {
        mid
    }
}

pub open spec fn chunk_fold(st: ChunkState, ps: Seq<Seq<char>>) -> ChunkState
    decreases ps.len(),
{
    if ps.len() == 0 {
        st
    } else {
        chunk_fold(chunk_step(st, ps[0]), ps.skip(1))
    }
}

/// The closed chunks followed by the open one, if it holds anything.
pub open spec fn chunk_finish(st: ChunkState) -> Seq<Seq<char>> {
    if st.1.len() > 0 {
        st.0.push(st.1)
    } else {
        st.0
    }
}

/// The chunks of a body.
pub open spec fn chunks_spec(s: Seq<char>) -> Seq<Seq<char>> {
    chunk_finish(chunk_fold((Seq::empty(), Seq::empty()), paragraphs(s)))
}

/// Split a body into paragraph chunks sized for embedding: blank-line
/// separated paragraphs, trimmed, with small ones merged and a chunk
/// closed once it reaches `MAX_CHARS` bytes.
pub fn chunk_paragraphs(body: &str) -> (r: Vec<String>)
    ensures
        r@.map_values(|c: String| c@) == chunks_spec(body@),
{
    let v = chars_of(body);
    let ghost total = v@;
    let mut out: Vec<String> = Vec::new();
    let mut buf: Vec<char> = Vec::new();
    let mut buf_cap: usize = 0;
    let mut start: usize = 0;
    let mut i: usize = 0;
    let mut done = false;
    assert(total.skip(0) == total);
    assert(out@.map_values(|c: String| c@) =~= Seq::<Seq<char>>::empty());
    while !done
        invariant
            v@ == total,
            !done ==> start <= i <= v@.len(),
            !done ==> find_double_nl(total.skip(start as int), 0) == find_double_nl(
                total.skip(start as int),
                (i - start) as int,
            ),
            buf_cap as nat == if utf8_len(buf@) < MAX_CHARS as nat {
                utf8_len(buf@)
            } else {
                MAX_CHARS as nat
            },
            !done ==> chunks_spec(total) == chunk_finish(
                chunk_fold(
                    (out@.map_values(|c: String| c@), buf@),
                    nonempty_trimmed(split_blank(total.skip(start as int))),
                ),
            ),
            done ==> chunks_spec(total) == chunk_finish((out@.map_values(|c: String| c@), buf@)),
        decreases (if done { 0int } else { 1int }), v@.len() - i,
    {
        let ghost rest = total.skip(start as int);
        let found = i < v.len() && i < v.len() - 1 && v[i] == '\n' && v[i + 1] == '\n';
        if !found && i < v.len() && i < v.len() - 1 {
            proof {
                lemma_find_blank_skip_one(rest, (i - start) as int);
            }
            i = i + 1;
        } else {
            // a piece ends at i: a separator or the end of the text
            let piece_end = if found {
                i
            } else {
                v.len()
            };
            let ghost piece = total.subrange(start as int, piece_end as int);
            proof {
                if found {
                    let p = (i - start) as int;
                    assert(rest[p] == '\n' && rest[p + 1] == '\n');
                    assert(find_double_nl(rest, p) == Some(p));
                    assert(rest.take(p) == piece);
                    assert(rest.skip(p + 2) == total.skip(i + 2));
                    let tl = split_blank(total.skip(i + 2));
                    assert(split_blank(rest) == seq![piece] + tl);
                    assert((seq![piece] + tl)[0] == piece);
                    assert((seq![piece] + tl).skip(1) == tl);
                } else {
                    assert(find_double_nl(rest, (i - start) as int) is None);
                    assert(rest == piece);
                    assert(split_blank(rest) == seq![piece]);
                    assert(seq![piece].skip(1) == Seq::<Seq<char>>::empty());
                }
            }
            let (a, b) = trim_bounds(v.as_slice(), start, piece_end);
            let ghost st0 = (out@.map_values(|c: String| c@), buf@);
            if a < b {
                let ghost p = v@.subrange(a as int, b as int);
                let p_cap = utf8_len_capped(v.as_slice(), a, b, MAX_CHARS);
                if buf.len() == 0 {
                    push_range(&mut buf, v.as_slice(), a, b);
                    assert(buf@ == p);
                    buf_cap = p_cap;
                } else if buf_cap < MIN_CHARS {
                    let ghost old_buf = buf@;
                    buf.push('\n');
                    buf.push('\n');
                    assert(buf@ == old_buf + blank_sep());
                    push_range(&mut buf, v.as_slice(), a, b);
                    proof {
                        lemma_utf8_len_concat(old_buf, blank_sep());
                        lemma_utf8_len_concat(old_buf + blank_sep(), p);
                        assert(utf8_len(blank_sep()) == 2) by {
                            reveal_with_fuel(utf8_len, 3);
                            assert(blank_sep().drop_last().drop_last() == Seq::<char>::empty());
                        }
                    }
                    buf_cap = if MAX_CHARS - buf_cap - 2 <= p_cap {
                        MAX_CHARS
                    } else {
                        buf_cap + 2 + p_cap
                    };
                } else {
                    let full = string_from_chars(buf.as_slice());
                    out.push(full);
                    buf = Vec::new();
                    push_range(&mut buf, v.as_slice(), a, b);
                    assert(buf@ == Seq::<char>::empty() + p);
                    buf_cap = p_cap;
                }
                if buf_cap >= MAX_CHARS {
                    let full = string_from_chars(buf.as_slice());
                    out.push(full);
                    buf = Vec::new();
                    buf_cap = 0;
                }
                proof {
                    assert((out@.map_values(|c: String| c@), buf@) == chunk_step(st0, p));
                }
            }
            proof {
                let tl = if found {
                    split_blank(total.skip(i + 2))
                } else {
                    Seq::<Seq<char>>::empty()
                };
                assert(split_blank(rest) == seq![piece] + tl);
                let nt = nonempty_trimmed(seq![piece] + tl);
                assert((seq![piece] + tl)[0] == piece);
                assert((seq![piece] + tl).skip(1) == tl);
                if a < b {
                    assert(nt == seq![trim_spec(piece)] + nonempty_trimmed(tl));
                    assert(nt[0] == trim_spec(piece));
                    assert(nt.skip(1) == nonempty_trimmed(tl));
                } else {
                    assert(nt == nonempty_trimmed(tl));
                }
            }
            if found {
                start = i + 2;
                i = i + 2;
                assert(total.skip(start as int).skip(0) == total.skip(start as int));
            } else {
                done = true;
                assert(nonempty_trimmed(Seq::<Seq<char>>::empty()) == Seq::<Seq<char>>::empty());
                let ghost st1 = (out@.map_values(|c: String| c@), buf@);
                assert(chunk_fold(st1, Seq::<Seq<char>>::empty()) == st1);
            }
        }
    }
    if buf.len() > 0 {
        out.push(string_from_chars(buf.as_slice()));
    }
    out
}

/// Texts joined with a blank line between each two.
pub open spec fn join_blank(xs: Seq<Seq<char>>) -> Seq<char>
    decreases xs.len(),
{
    if xs.len() == 0 {
        Seq::empty()
    } else if xs.len() == 1 {
        xs[0]
    } else {
        join_blank(xs.drop_last()) + blank_sep() + xs.last()
    }
}

/// Closed chunks are non-empty and at least `MIN_CHARS` bytes long.
pub open spec fn closed_ok(out: Seq<Seq<char>>) -> bool {
    forall|i: int| 0 <= i < out.len() ==> #[trigger] out[i].len() > 0 && utf8_len(out[i]) >= MIN_CHARS as nat
}

proof fn lemma_nonempty_trimmed_nonempty(pieces: Seq<Seq<char>>)
    ensures
        forall|i: int| 0 <= i < nonempty_trimmed(pieces).len() ==> #[trigger] nonempty_trimmed(pieces)[i].len() > 0,
    decreases pieces.len(),
{
    if pieces.len() > 0 {
        lemma_nonempty_trimmed_nonempty(pieces.skip(1));
        let t = trim_spec(pieces[0]);
        let r = nonempty_trimmed(pieces.skip(1));
        if t.len() > 0 {
            assert forall|i: int| 0 <= i < (seq![t] + r).len() implies #[trigger] (seq![t] + r)[i].len() > 0 by {
                if i > 0 {
                    assert((seq![t] + r)[i] == r[i - 1]);
                }
            }
        }
    }
}

proof fn lemma_join_push(xs: Seq<Seq<char>>, a: Seq<char>)
    ensures
        join_blank(xs.push(a)) == if xs.len() == 0 { a } else { join_blank(xs) + blank_sep() + a },
{
    assert(xs.push(a).drop_last() == xs);
}

proof fn lemma_step_props(st: ChunkState, p: Seq<char>)
    requires
        p.len() > 0,
        closed_ok(st.0),
    ensures
        closed_ok(chunk_step(st, p).0),
        join_blank(chunk_finish(chunk_step(st, p))) == join_blank(chunk_finish(st).push(p)),
{
    let out = st.0;
    let buf = st.1;
    let mid: ChunkState = if buf.len() == 0 {
        (out, p)
    } else if utf8_len(buf) < MIN_CHARS as nat {
        (out, buf + blank_sep() + p)
    } else {
        (out.push(buf), p)
    };
    assert(mid.1.len() > 0);
    assert(closed_ok(mid.0)) by {
        if buf.len() > 0 && utf8_len(buf) >= MIN_CHARS as nat {
            assert forall|i: int| 0 <= i < out.push(buf).len() implies #[trigger] out.push(buf)[i].len()
                > 0 && utf8_len(out.push(buf)[i]) >= MIN_CHARS as nat by {
                if i < out.len() {
                    assert(out.push(buf)[i] == out[i]);
                }
            }
        }
    }
    assert(chunk_finish(mid) == mid.0.push(mid.1));
    if utf8_len(mid.1) >= MAX_CHARS as nat {
        assert forall|i: int| 0 <= i < mid.0.push(mid.1).len() implies #[trigger] mid.0.push(mid.1)[i].len()
            > 0 && utf8_len(mid.0.push(mid.1)[i]) >= MIN_CHARS as nat by {
            if i < mid.0.len() {
                assert(mid.0.push(mid.1)[i] == mid.0[i]);
            }
        }
        assert(chunk_finish(chunk_step(st, p)) == mid.0.push(mid.1));
    }
    if buf.len() == 0 {
        assert(chunk_finish(st) == out);
    } else if utf8_len(buf) < MIN_CHARS as nat {
        assert(chunk_finish(st) == out.push(buf));
        lemma_join_push(out, buf);
        lemma_join_push(out.push(buf), p);
        lemma_join_push(out, buf + blank_sep() + p);
        if out.len() > 0 {
            assert(join_blank(out) + blank_sep() + (buf + blank_sep() + p) == join_blank(out)
                + blank_sep() + buf + blank_sep() + p);
        }
    } else {
        assert(chunk_finish(st) == out.push(buf));
    }
}

proof fn lemma_fold_props(st: ChunkState, ps: Seq<Seq<char>>)
    requires
        forall|i: int| 0 <= i < ps.len() ==> #[trigger] ps[i].len() > 0,
        closed_ok(st.0),
    ensures
        closed_ok(chunk_fold(st, ps).0),
        join_blank(chunk_finish(chunk_fold(st, ps))) == join_blank(chunk_finish(st) + ps),
    decreases ps.len(),
{
    if ps.len() == 0 {
        assert(chunk_finish(st) + ps == chunk_finish(st));
    } else {
        assert(ps[0].len() > 0);
        lemma_step_props(st, ps[0]);
        let st2 = chunk_step(st, ps[0]);
        assert forall|i: int| 0 <= i < ps.skip(1).len() implies #[trigger] ps.skip(1)[i].len() > 0 by {
            assert(ps.skip(1)[i] == ps[i + 1]);
        }
        lemma_fold_props(st2, ps.skip(1));
        lemma_join_append(chunk_finish(st2), chunk_finish(st).push(ps[0]), ps.skip(1));
        assert(chunk_finish(st).push(ps[0]) + ps.skip(1) == chunk_finish(st) + ps);
    }
}

proof fn lemma_join_append(a: Seq<Seq<char>>, b: Seq<Seq<char>>, c: Seq<Seq<char>>)
    requires
        join_blank(a) == join_blank(b),
        a.len() == 0 <==> b.len() == 0,
    ensures
        join_blank(a + c) == join_blank(b + c),
    decreases c.len(),
{
    if c.len() > 0 {
        lemma_join_append(a, b, c.drop_last());
        assert((a + c).drop_last() == a + c.drop_last());
        assert((b + c).drop_last() == b + c.drop_last());
        assert((a + c).last() == (b + c).last());
    } else {
        assert(a + c == a);
        assert(b + c == b);
    }
}

/// Chunking keeps the text: the chunks joined by blank lines are exactly
/// the body's paragraphs joined by blank lines.
pub proof fn law_chunks_preserve_text(body: Seq<char>)
    ensures
        join_blank(chunks_spec(body)) == join_blank(paragraphs(body)),
{
    lemma_nonempty_trimmed_nonempty(split_blank(body));
    let st0: ChunkState = (Seq::empty(), Seq::empty());
    lemma_fold_props(st0, paragraphs(body));
    assert(chunk_finish(st0) + paragraphs(body) == paragraphs(body));
}

/// Every chunk holds text, and every chunk but the last is at least
/// `MIN_CHARS` bytes long.
pub proof fn law_chunk_sizes(body: Seq<char>)
    ensures
        forall|i: int| 0 <= i < chunks_spec(body).len() ==> #[trigger] chunks_spec(body)[i].len() > 0,
        forall|i: int|
            0 <= i < chunks_spec(body).len() - 1 ==> utf8_len(#[trigger] chunks_spec(body)[i]) >= MIN_CHARS as nat,
{
    lemma_nonempty_trimmed_nonempty(split_blank(body));
    let st0: ChunkState = (Seq::empty(), Seq::empty());
    lemma_fold_props(st0, paragraphs(body));
    let f = chunk_fold(st0, paragraphs(body));
    let c = chunks_spec(body);
    assert forall|i: int| 0 <= i < c.len() implies #[trigger] c[i].len() > 0 by {
        if i < f.0.len() {
            assert(c[i] == f.0[i]);
        }
    }
    assert forall|i: int| 0 <= i < c.len() - 1 implies utf8_len(#[trigger] c[i]) >= MIN_CHARS as nat by {
        assert(i < f.0.len());
        assert(c[i] == f.0[i]);
    }
}

/// Chunk `i` is the run `ps[bounds[i]..bounds[i + 1]]` joined by blank
/// lines, the run is not empty, and when it holds two or more paragraphs,
/// all of them but the last joined are under `MIN_CHARS` bytes (a chunk
/// only takes another paragraph while it is that short).
pub open spec fn run_at(ps: Seq<Seq<char>>, bounds: Seq<int>, i: int, c: Seq<char>) -> bool {
    &&& 0 <= bounds[i] < bounds[i + 1] <= ps.len()
    &&& c == join_blank(ps.subrange(bounds[i], bounds[i + 1]))
    &&& bounds[i + 1] - bounds[i] >= 2 ==> utf8_len(join_blank(ps.subrange(bounds[i], bounds[i + 1] - 1)))
        < MIN_CHARS as nat
}

/// `bounds` cuts `ps` into consecutive runs, from the first paragraph to
/// the last, and chunk `i` is run `i`.
pub open spec fn paragraph_runs(ps: Seq<Seq<char>>, chunks: Seq<Seq<char>>, bounds: Seq<int>) -> bool {
    &&& bounds.len() == chunks.len() + 1
    &&& bounds[0] == 0
    &&& bounds[chunks.len() as int] == ps.len()
    &&& forall|i: int| 0 <= i < chunks.len() ==> run_at(ps, bounds, i, #[trigger] chunks[i])
}

/// The closed chunks are runs of the paragraphs taken so far, and the open
/// chunk, if any, is the run of the rest.
spec fn run_state(ps: Seq<Seq<char>>, st: ChunkState, bs: Seq<int>) -> bool {
    let k = st.0.len() as int;
    &&& bs.len() == k + 1
    &&& bs[0] == 0
    &&& 0 <= bs[k] <= ps.len()
    &&& forall|i: int| 0 <= i < k ==> run_at(ps, bs, i, #[trigger] st.0[i])
    &&& st.1.len() == 0 ==> bs[k] == ps.len()
    &&& st.1.len() > 0 ==> run_at(ps, bs.push(ps.len() as int), k, st.1)
}

proof fn lemma_run_at_push(ps: Seq<Seq<char>>, bs: Seq<int>, x: int, i: int, c: Seq<char>)
    requires
        0 <= i,
        i + 1 < bs.len(),
    ensures
        run_at(ps, bs.push(x), i, c) == run_at(ps, bs, i, c),
{
    assert(bs.push(x)[i] == bs[i]);
    assert(bs.push(x)[i + 1] == bs[i + 1]);
}

proof fn lemma_run_at_extend(ps: Seq<Seq<char>>, p: Seq<char>, bs: Seq<int>, i: int, c: Seq<char>)
    requires
        run_at(ps, bs, i, c),
    ensures
        run_at(ps.push(p), bs, i, c),
{
    assert(ps.push(p).subrange(bs[i], bs[i + 1]) == ps.subrange(bs[i], bs[i + 1]));
    if bs[i + 1] - bs[i] >= 2 {
        assert(ps.push(p).subrange(bs[i], bs[i + 1] - 1) == ps.subrange(bs[i], bs[i + 1] - 1));
    }
}

/// A lone paragraph `p` taken as the run `[n, n + 1)` after `ps`.
proof fn lemma_run_single(ps: Seq<Seq<char>>, p: Seq<char>, bs: Seq<int>, k: int)
    requires
        0 <= k,
        k + 1 == bs.len(),
        bs[k] == ps.len(),
    ensures
        run_at(ps.push(p), bs.push(ps.len() as int + 1), k, p),
{
    let n = ps.len() as int;
    assert(bs.push(n + 1)[k] == n);
    assert(bs.push(n + 1)[k + 1] == n + 1);
    assert(ps.push(p).subrange(n, n + 1) == seq![p]);
}

proof fn lemma_run_step(ps: Seq<Seq<char>>, st: ChunkState, bs: Seq<int>, p: Seq<char>) -> (bs2: Seq<int>)
    requires
        run_state(ps, st, bs),
        p.len() > 0,
    ensures
        run_state(ps.push(p), chunk_step(st, p), bs2),
{
    let out = st.0;
    let buf = st.1;
    let k = out.len() as int;
    let n = ps.len() as int;
    let ps2 = ps.push(p);
    assert forall|i: int| 0 <= i < k implies run_at(ps2, bs, i, #[trigger] out[i]) by {
        lemma_run_at_extend(ps, p, bs, i, out[i]);
    }
    // The state after taking `p`, before the size cap, and its bounds.
    let mid: ChunkState = if buf.len() == 0 {
        (out, p)
    } else if utf8_len(buf) < MIN_CHARS as nat {
        (out, buf + blank_sep() + p)
    } else {
        (out.push(buf), p)
    };
    let bm: Seq<int> = if buf.len() > 0 && utf8_len(buf) >= MIN_CHARS as nat {
        bs.push(n)
    } else {
        bs
    };
    let km = mid.0.len() as int;
    if buf.len() == 0 {
        lemma_run_single(ps, p, bs, k);
    } else if utf8_len(buf) < MIN_CHARS as nat {
        let bp = bs.push(n);
        assert(bp[k] == bs[k] && bp[k + 1] == n);
        let xs = ps.subrange(bs[k], n);
        assert(buf == join_blank(xs));
        assert(ps2.subrange(bs[k], n + 1) == xs.push(p));
        lemma_join_push(xs, p);
        assert(ps2.subrange(bs[k], n + 1 - 1) == xs);
        let bq = bs.push(n + 1);
        assert(bq[k] == bs[k] && bq[k + 1] == n + 1);
        assert(run_at(ps2, bq, k, buf + blank_sep() + p));
    } else {
        lemma_run_at_extend(ps, p, bs.push(n), k, buf);
        assert forall|i: int| 0 <= i < km implies run_at(ps2, bm, i, #[trigger] mid.0[i]) by {
            if i < k {
                lemma_run_at_push(ps2, bs, n, i, out[i]);
                assert(mid.0[i] == out[i]);
            } else {
                assert(mid.0[i] == buf);
            }
        }
        assert(bm[km] == n);
        lemma_run_single(ps, p, bm, km);
    }
    assert(run_state(ps2, mid, bm));
    if utf8_len(mid.1) >= MAX_CHARS as nat {
        let b2 = bm.push(n + 1);
        let closed = mid.0.push(mid.1);
        assert forall|i: int| 0 <= i < closed.len() implies run_at(ps2, b2, i, #[trigger] closed[i]) by {
            if i < km {
                lemma_run_at_push(ps2, bm, n + 1, i, mid.0[i]);
                assert(closed[i] == mid.0[i]);
            } else {
                assert(closed[i] == mid.1);
            }
        }
        assert(b2[km + 1] == n + 1);
        b2
    } else {
        bm
    }
}

proof fn lemma_run_fold(done: Seq<Seq<char>>, st: ChunkState, bs: Seq<int>, rest: Seq<Seq<char>>) -> (bs2: Seq<int>)
    requires
        run_state(done, st, bs),
        forall|i: int| 0 <= i < rest.len() ==> #[trigger] rest[i].len() > 0,
    ensures
        run_state(done + rest, chunk_fold(st, rest), bs2),
    decreases rest.len(),
{
    if rest.len() == 0 {
        assert(done + rest == done);
        bs
    } else {
        assert(rest[0].len() > 0);
        let b1 = lemma_run_step(done, st, bs, rest[0]);
        assert forall|i: int| 0 <= i < rest.skip(1).len() implies #[trigger] rest.skip(1)[i].len() > 0 by {
            assert(rest.skip(1)[i] == rest[i + 1]);
        }
        let b2 = lemma_run_fold(done.push(rest[0]), chunk_step(st, rest[0]), b1, rest.skip(1));
        assert(done.push(rest[0]) + rest.skip(1) == done + rest);
        b2
    }
}

/// The chunks are consecutive runs of the body's paragraphs that cover
/// them all in order: no paragraph is dropped, split, repeated or moved,
/// and a chunk of several paragraphs took its last one while the rest of
/// it was still under `MIN_CHARS` bytes.
pub proof fn law_chunks_are_paragraph_runs(body: Seq<char>)
    ensures
        exists|bounds: Seq<int>| paragraph_runs(paragraphs(body), chunks_spec(body), bounds),
{
    let ps = paragraphs(body);
    lemma_nonempty_trimmed_nonempty(split_blank(body));
    let st0: ChunkState = (Seq::empty(), Seq::empty());
    let b0: Seq<int> = seq![0int];
    assert(run_state(Seq::<Seq<char>>::empty(), st0, b0));
    let bs = lemma_run_fold(Seq::empty(), st0, b0, ps);
    assert(Seq::<Seq<char>>::empty() + ps == ps);
    let f = chunk_fold(st0, ps);
    let k = f.0.len() as int;
    let c = chunks_spec(body);
    if f.1.len() > 0 {
        let b2 = bs.push(ps.len() as int);
        assert forall|i: int| 0 <= i < c.len() implies run_at(ps, b2, i, #[trigger] c[i]) by {
            if i < k {
                lemma_run_at_push(ps, bs, ps.len() as int, i, f.0[i]);
                assert(c[i] == f.0[i]);
            } else {
                assert(c[i] == f.1);
            }
        }
        assert(paragraph_runs(ps, c, b2));
    } else {
        assert(c == f.0);
        assert(paragraph_runs(ps, c, bs));
    }
}

proof fn lemma_find_blank_skip_one(s: Seq<char>, k: int)
    requires
        0 <= k,
        k + 1 < s.len(),
        !(s[k] == '\n' && s[k + 1] == '\n'),
    ensures
        find_double_nl(s, k) == find_double_nl(s, k + 1),
{
}

/// Dimensionality of the stored embeddings.
pub const EMBED_DIM: usize = 768;

/// Reciprocal-rank-fusion constant (k = 60): a hit at rank `r` of a list
/// scores `1 / (60 + r)`.
pub const RRF_K: u64 = 60;

/// One hit of a search half: id, title, type and snippet.
#[derive(Debug)]
pub struct SearchRow {
    pub id: String,
    pub title: String,
    pub kind: String,
    pub snippet: String,
}

/// A fused hit: its ranks in the full-text and vector lists (absent
/// where that list did not find it) and which lists found it.
#[derive(Debug)]
pub struct HybridHit {
    pub id: String,
    pub title: String,
    pub kind: String,
    pub snippet: String,
    pub fts_rank: Option<usize>,
    pub vec_rank: Option<usize>,
    /// `fts`, `vec` or `both`.
    pub source: &'static str,
}

pub struct RowV {
    pub id: Seq<char>,
    pub title: Seq<char>,
    pub kind: Seq<char>,
    pub snippet: Seq<char>,
}

pub struct HitV {
    pub id: Seq<char>,
    pub title: Seq<char>,
    pub kind: Seq<char>,
    pub snippet: Seq<char>,
    pub fts: Option<usize>,
    pub vec: Option<usize>,
}

impl View for SearchRow {
    type V = RowV;

    open spec fn view(&self) -> RowV {
        RowV { id: self.id@, title: self.title@, kind: self.kind@, snippet: self.snippet@ }
    }
}

impl View for HybridHit {
    type V = HitV;

    open spec fn view(&self) -> HitV {
        HitV {
            id: self.id@,
            title: self.title@,
            kind: self.kind@,
            snippet: self.snippet@,
            fts: self.fts_rank,
            vec: self.vec_rank,
        }
    }
}

pub open spec fn rows_view(v: Seq<SearchRow>) -> Seq<RowV> {
    v.map_values(|r: SearchRow| r@)
}

pub open spec fn hits_view(v: Seq<HybridHit>) -> Seq<HitV> {
    v.map_values(|h: HybridHit| h@)
}

/// First hit at or after `i` with id `id`.
pub open spec fn find_hit(s: Seq<HitV>, id: Seq<char>, i: int) -> Option<int>
    decreases s.len() - i,
{
    if i < 0 || i >= s.len() {
        None
    } else if s[i].id == id {
        Some(i)
    } else {
        find_hit(s, id, i + 1)
    }
}

/// The hits after the first `n` full-text rows: each row, at its rank,
/// sets the hit's full-text rank and its title, type and snippet.
pub open spec fn fts_fold(rows: Seq<RowV>, n: int) -> Seq<HitV>
    decreases n,
{
    if n <= 0 || n > rows.len() {
        Seq::empty()
    } else {
        let s = fts_fold(rows, n - 1);
        let r = rows[n - 1];
        match find_hit(s, r.id, 0) {
            Some(k) => s.update(
                k,
                HitV { id: s[k].id, title: r.title, kind: r.kind, snippet: r.snippet, fts: Some((n - 1) as usize), vec: s[k].vec },
            ),
            None => s.push(HitV { id: r.id, title: r.title, kind: r.kind, snippet: r.snippet, fts: Some((n - 1) as usize), vec: None }),
        }
    }
}

/// Then the first `n` vector rows: each sets the hit's vector rank; a hit
/// the full-text half already found keeps its title, type and snippet.
pub open spec fn vec_fold(base: Seq<HitV>, rows: Seq<RowV>, n: int) -> Seq<HitV>
    decreases n,
{
    if n <= 0 || n > rows.len() {
        base
    } else {
        let s = vec_fold(base, rows, n - 1);
        let r = rows[n - 1];
        match find_hit(s, r.id, 0) {
            Some(k) => s.update(
                k,
                HitV { id: s[k].id, title: s[k].title, kind: s[k].kind, snippet: s[k].snippet, fts: s[k].fts, vec: Some((n - 1) as usize) },
            ),
            None => s.push(HitV { id: r.id, title: r.title, kind: r.kind, snippet: r.snippet, fts: None, vec: Some((n - 1) as usize) }),
        }
    }
}

/// Every id the two lists found, once, in order of first appearance.
pub open spec fn fused_spec(fts: Seq<RowV>, vec: Seq<RowV>) -> Seq<HitV> {
    vec_fold(fts_fold(fts, fts.len() as int), vec, vec.len() as int)
}

/// A hit's fused score as a fraction (numerator, denominator): the sum of
/// `1 / (60 + rank)` over the lists that found it.
pub open spec fn score(h: HitV) -> (int, int) {
    match (h.fts, h.vec) {
        (Some(f), Some(v)) => ((60 + f) + (60 + v), (60 + f) * (60 + v)),
        (Some(f), None) => (1, 60 + f),
        (None, Some(v)) => (1, 60 + v),
        (None, None) => (0, 1),
    }
}

/// `a` scores strictly higher than `b`.
pub open spec fn scores_higher(a: HitV, b: HitV) -> bool {
    score(a).0 * score(b).1 > score(b).0 * score(a).1
}

/// Best score first.
pub open spec fn by_score_desc(s: Seq<HitV>) -> bool {
    forall|i: int, j: int| 0 <= i < j < s.len() ==> !scores_higher(#[trigger] s[j], #[trigger] s[i])
}

pub open spec fn source_name(f: Option<usize>, v: Option<usize>) -> Seq<char> {
    match (f, v) {
        (Some(_), Some(_)) => "both"@,
        (Some(_), None) => "fts"@,
        (None, Some(_)) => "vec"@,
        (None, None) => "none"@,
    }
}

/// Both ranks (where present) below 2^32.
pub open spec fn ranks_small(f: Option<usize>, v: Option<usize>) -> bool {
    &&& (f matches Some(x) ==> x < 0x1_0000_0000)
    &&& (v matches Some(x) ==> x < 0x1_0000_0000)
}

/// The most hits a fused search returns.
pub const MAX_HITS: usize = 50;

fn find_hit_exec(hits: &Vec<HybridHit>, id: &str) -> (r: Option<usize>)
    ensures
        match r {
            Some(k) => find_hit(hits_view(hits@), id@, 0) == Some(k as int) && k < hits@.len(),
            None => find_hit(hits_view(hits@), id@, 0) is None,
        },
{
    let ghost hv = hits_view(hits@);
    let mut k: usize = 0;
    while k < hits.len()
        invariant
            k <= hits@.len(),
            hv == hits_view(hits@),
            find_hit(hv, id@, 0) == find_hit(hv, id@, k as int),
        decreases hits@.len() - k,
    {
        if crate::text::str_eq(hits[k].id.as_str(), id) {
            assert(hv[k as int].id == id@);
            return Some(k);
        }
        k = k + 1;
    }
    None
}

fn source_of(f: Option<usize>, v: Option<usize>) -> (s: &'static str)
    ensures
        s@ == source_name(f, v),
{
    match (f, v) {
        (Some(_), Some(_)) => "both",
        (Some(_), None) => "fts",
        (None, Some(_)) => "vec",
        (None, None) => "none",
    }
}

fn hit(id: String, title: String, kind: String, snippet: String, f: Option<usize>, v: Option<usize>) -> (h: HybridHit)
    ensures
        h@ == (HitV { id: id@, title: title@, kind: kind@, snippet: snippet@, fts: f, vec: v }),
        h.source@ == source_name(f, v),
{
    HybridHit { id, title, kind, snippet, fts_rank: f, vec_rank: v, source: source_of(f, v) }
}

/// Whether `a` has a strictly higher fused score than `b` (ranks below
/// 2^32), compared exactly.
pub fn scores_above(a: &HybridHit, b: &HybridHit) -> (r: bool)
    requires
        ranks_small(a.fts_rank, a.vec_rank),
        ranks_small(b.fts_rank, b.vec_rank),
    ensures
        r == scores_higher(a@, b@),
{
    let (an, ad) = score_exec(a.fts_rank, a.vec_rank);
    let (bn, bd) = score_exec(b.fts_rank, b.vec_rank);
    assert(an * bd <= 0x4_0000_0000 * 0x2_0000_0000_0000_0000) by (nonlinear_arith)
        requires
            an <= 0x4_0000_0000,
            bd <= 0x2_0000_0000_0000_0000,
    ;
    assert(bn * ad <= 0x4_0000_0000 * 0x2_0000_0000_0000_0000) by (nonlinear_arith)
        requires
            bn <= 0x4_0000_0000,
            ad <= 0x2_0000_0000_0000_0000,
    ;
    an * bd > bn * ad
}

fn score_exec(f: Option<usize>, v: Option<usize>) -> (r: (u128, u128))
    requires
        ranks_small(f, v),
    ensures
        r.0 == score(HitV { id: Seq::empty(), title: Seq::empty(), kind: Seq::empty(), snippet: Seq::empty(), fts: f, vec: v }).0,
        r.1 == score(HitV { id: Seq::empty(), title: Seq::empty(), kind: Seq::empty(), snippet: Seq::empty(), fts: f, vec: v }).1,
        r.0 <= 0x4_0000_0000,
        r.1 <= 0x2_0000_0000_0000_0000,
{
    match (f, v) {
        (Some(a), Some(b)) => {
            let x = 60 + a as u128;
            let y = 60 + b as u128;
            assert(x * y <= 0x1_0000_0040 * 0x1_0000_0040) by (nonlinear_arith)
                requires
                    x <= 0x1_0000_0040,
                    y <= 0x1_0000_0040,
            ;
            (x + y, x * y)
        },
        (Some(a), None) => (1, 60 + a as u128),
        (None, Some(b)) => (1, 60 + b as u128),
        (None, None) => (0, 1),
    }
}

pub open spec fn ranks_below(h: HitV, nf: int, nv: int) -> bool {
    &&& (h.fts matches Some(x) ==> x < nf)
    &&& (h.vec matches Some(x) ==> x < nv)
}

proof fn lemma_fts_ranks(fts: Seq<RowV>, n: int)
    requires
        0 <= n <= fts.len(),
    ensures
        forall|i: int| 0 <= i < fts_fold(fts, n).len() ==> ranks_below(#[trigger] fts_fold(fts, n)[i], n, 0),
    decreases n,
{
    if n > 0 {
        lemma_fts_ranks(fts, n - 1);
        let s = fts_fold(fts, n - 1);
        let t = fts_fold(fts, n);
        lemma_find_hit_range(s, fts[n - 1].id, 0);
        assert forall|i: int| 0 <= i < t.len() implies ranks_below(#[trigger] t[i], n, 0) by {
            match find_hit(s, fts[n - 1].id, 0) {
                Some(k) => {
                    if i != k {
                        assert(t[i] == s[i]);
                    }
                },
                None => {
                    if i < s.len() {
                        assert(t[i] == s[i]);
                    }
                },
            }
        }
    }
}

proof fn lemma_vec_ranks(base: Seq<HitV>, vec: Seq<RowV>, nf: int, m: int)
    requires
        0 <= m <= vec.len(),
        forall|i: int| 0 <= i < base.len() ==> ranks_below(#[trigger] base[i], nf, 0),
    ensures
        forall|i: int| 0 <= i < vec_fold(base, vec, m).len() ==> ranks_below(#[trigger] vec_fold(base, vec, m)[i], nf, m),
    decreases m,
{
    if m > 0 {
        lemma_vec_ranks(base, vec, nf, m - 1);
        let s = vec_fold(base, vec, m - 1);
        let t = vec_fold(base, vec, m);
        lemma_find_hit_range(s, vec[m - 1].id, 0);
        assert forall|i: int| 0 <= i < t.len() implies ranks_below(#[trigger] t[i], nf, m) by {
            match find_hit(s, vec[m - 1].id, 0) {
                Some(k) => {
                    if i != k {
                        assert(t[i] == s[i]);
                        assert(ranks_below(s[i], nf, m - 1));
                    }
                },
                None => {
                    if i < s.len() {
                        assert(t[i] == s[i]);
                        assert(ranks_below(s[i], nf, m - 1));
                    }
                },
            }
        }
    } else {
        assert forall|i: int| 0 <= i < base.len() implies ranks_below(#[trigger] base[i], nf, 0) by {}
    }
}

proof fn lemma_find_hit_range(s: Seq<HitV>, id: Seq<char>, i: int)
    requires
        0 <= i,
    ensures
        find_hit(s, id, i) matches Some(k) ==> i <= k < s.len() && s[k].id == id,
    decreases s.len() - i,
{
    if i < s.len() && s[i].id != id {
        lemma_find_hit_range(s, id, i + 1);
    }
}

/// Reciprocal-rank fusion of a full-text list and a vector list (each
/// best first): every id either found, once, with its rank in each list,
/// best fused score first, at most 50. The order among hits of equal
/// score is left open.
pub fn fuse_hits(fts: &Vec<SearchRow>, vec: &Vec<SearchRow>) -> (r: Vec<HybridHit>)
    requires
        fts@.len() < 0x1_0000_0000,
        vec@.len() < 0x1_0000_0000,
    ensures
        ({
            let all = fused_spec(rows_view(fts@), rows_view(vec@));
            exists|sorted: Seq<HitV>|
                {
                    &&& sorted.len() == all.len()
                    &&& by_score_desc(sorted)
                    &&& forall|i: int| 0 <= i < all.len() ==> sorted.contains(#[trigger] all[i])
                    &&& hits_view(r@) == sorted.take(
                        if sorted.len() < MAX_HITS {
                            sorted.len() as int
                        } else {
                            MAX_HITS as int
                        },
                    )
                }
        }),
        forall|i: int| 0 <= i < r@.len() ==> (#[trigger] r@[i]).source@ == source_name(r@[i].fts_rank, r@[i].vec_rank),
        ids_unique(hits_view(r@)),
        forall|i: int|
            0 <= i < r@.len() ==> (#[trigger] r@[i]).fts_rank == rank_in(rows_view(fts@), r@[i].id@)
                && r@[i].vec_rank == rank_in(rows_view(vec@), r@[i].id@),
{
    let ghost fv = rows_view(fts@);
    let ghost vv = rows_view(vec@);
    let mut hits: Vec<HybridHit> = Vec::new();
    let mut i: usize = 0;
    while i < fts.len()
        invariant
            i <= fts@.len(),
            fv == rows_view(fts@),
            hits_view(hits@) == fts_fold(fv, i as int),
            forall|q: int| 0 <= q < hits@.len() ==> (#[trigger] hits@[q]).source@ == source_name(hits@[q].fts_rank, hits@[q].vec_rank),
        decreases fts@.len() - i,
    {
        let row = &fts[i];
        let ghost before = hits_view(hits@);
        match find_hit_exec(&hits, row.id.as_str()) {
            Some(k) => {
                let old_id = hits[k].id.clone();
                let old_vec = hits[k].vec_rank;
                let h = hit(old_id, row.title.clone(), row.kind.clone(), row.snippet.clone(), Some(i), old_vec);
                let ghost hv = h@;
                hits.set(k, h);
                assert(hits_view(hits@) =~= before.update(k as int, hv));
            },
            None => {
                let h = hit(row.id.clone(), row.title.clone(), row.kind.clone(), row.snippet.clone(), Some(i), None);
                let ghost hv = h@;
                hits.push(h);
                assert(hits_view(hits@) =~= before.push(hv));
            },
        }
        assert(fv[i as int] == row@);
        i = i + 1;
    }
    let ghost base = hits_view(hits@);
    assert(vec_fold(base, vv, 0) == base);
    let mut j: usize = 0;
    while j < vec.len()
        invariant
            j <= vec@.len(),
            vv == rows_view(vec@),
            forall|q: int| 0 <= q < hits@.len() ==> (#[trigger] hits@[q]).source@ == source_name(hits@[q].fts_rank, hits@[q].vec_rank),
            base == fts_fold(fv, fv.len() as int),
            fv.len() == fts@.len(),
            hits_view(hits@) == vec_fold(base, vv, j as int),
        decreases vec@.len() - j,
    {
        let row = &vec[j];
        let ghost before = hits_view(hits@);
        match find_hit_exec(&hits, row.id.as_str()) {
            Some(k) => {
                let h = hit(
                    hits[k].id.clone(),
                    hits[k].title.clone(),
                    hits[k].kind.clone(),
                    hits[k].snippet.clone(),
                    hits[k].fts_rank,
                    Some(j),
                );
                let ghost hv = h@;
                hits.set(k, h);
                assert(hits_view(hits@) =~= before.update(k as int, hv));
            },
            None => {
                let h = hit(row.id.clone(), row.title.clone(), row.kind.clone(), row.snippet.clone(), None, Some(j));
                let ghost hv = h@;
                hits.push(h);
                assert(hits_view(hits@) =~= before.push(hv));
            },
        }
        assert(vv[j as int] == row@);
        j = j + 1;
    }
    let ghost all = hits_view(hits@);
    assert(all == fused_spec(fv, vv));
    proof {
        lemma_fts_ranks(fv, fv.len() as int);
        lemma_vec_ranks(base, vv, fv.len() as int, vv.len() as int);
        assert forall|q: int| 0 <= q < all.len() implies ranks_small((#[trigger] all[q]).fts, all[q].vec) by {
            assert(ranks_below(all[q], fv.len() as int, vv.len() as int));
        }
    }
    // Stable insertion by score into `sorted`.
    assert(all.len() == hits.len());
    let mut sorted: Vec<HybridHit> = Vec::new();
    let mut m: usize = 0;
    while hits.len() > 0
        invariant
            all.len() <= usize::MAX,
            m + hits@.len() == all.len(),
            hits_view(hits@) == all.skip(m as int),
            sorted@.len() == m,
            by_score_desc(hits_view(sorted@)),
            forall|q: int| 0 <= q < m ==> hits_view(sorted@).contains(#[trigger] all[q]),
            forall|q: int| 0 <= q < all.len() ==> ranks_small((#[trigger] all[q]).fts, all[q].vec),
            forall|q: int| 0 <= q < sorted@.len() ==> ranks_small((#[trigger] sorted@[q]).fts_rank, sorted@[q].vec_rank),
            forall|q: int| 0 <= q < sorted@.len() ==> (#[trigger] sorted@[q]).source@ == source_name(sorted@[q].fts_rank, sorted@[q].vec_rank),
            forall|q: int| 0 <= q < hits@.len() ==> (#[trigger] hits@[q]).source@ == source_name(hits@[q].fts_rank, hits@[q].vec_rank),
        decreases hits@.len(),
    {
        let ghost sv = hits_view(sorted@);
        let ghost before_hits = hits@;
        let x = hits.remove(0);
        proof {
            assert(x == before_hits[0]);
            assert(hits_view(before_hits)[0] == before_hits[0]@);
            assert(all.skip(m as int)[0] == all[m as int]);
            assert(x@ == all[m as int]);
            assert(hits@ =~= before_hits.remove(0));
            assert forall|q: int| 0 <= q < hits@.len() implies #[trigger] hits_view(hits@)[q] == all.skip(m + 1)[q] by {
                assert(hits@[q] == before_hits[q + 1]);
                assert(hits_view(before_hits)[q + 1] == all.skip(m as int)[q + 1]);
            }
            assert(hits_view(hits@) =~= all.skip(m + 1));
        }
        let mut pos: usize = 0;
        while pos < sorted.len() && !scores_above(&x, &sorted[pos])
            invariant
                pos <= sorted@.len(),
                sv == hits_view(sorted@),
                ranks_small(x.fts_rank, x.vec_rank),
                forall|q: int| 0 <= q < sorted@.len() ==> ranks_small((#[trigger] sorted@[q]).fts_rank, sorted@[q].vec_rank),
                forall|q: int| 0 <= q < pos ==> !scores_higher(x@, #[trigger] sv[q]),
            decreases sorted@.len() - pos,
        {
            pos = pos + 1;
        }
        let ghost xv = x@;
        sorted.insert(pos, x);
        proof {
            let nv = hits_view(sorted@);
            assert(nv =~= sv.insert(pos as int, xv));
            assert forall|a: int, b: int| 0 <= a < b < nv.len() implies !scores_higher(#[trigger] nv[b], #[trigger] nv[a]) by {
                if b < pos {
                    assert(nv[a] == sv[a] && nv[b] == sv[b]);
                } else if b == pos {
                    assert(nv[a] == sv[a]);
                } else if a == pos {
                    assert(nv[b] == sv[b - 1]);
                    lemma_not_higher_chain(xv, sv[pos as int], sv[b - 1], b - 1 == pos);
                } else if a < pos {
                    assert(nv[a] == sv[a] && nv[b] == sv[b - 1]);
                } else {
                    assert(nv[a] == sv[a - 1] && nv[b] == sv[b - 1]);
                }
            }
            assert forall|q: int| 0 <= q < m + 1 implies nv.contains(#[trigger] all[q]) by {
                if q == m {
                    assert(nv[pos as int] == xv);
                } else {
                    assert(sv.contains(all[q]));
                    let w = choose|w: int| 0 <= w < sv.len() && sv[w] == all[q];
                    if w < pos {
                        assert(nv[w] == sv[w]);
                    } else {
                        assert(nv[w + 1] == sv[w]);
                    }
                }
            }
        }
        m = m + 1;
    }
    let ghost full = hits_view(sorted@);
    assert(all.skip(m as int).len() == 0);
    if sorted.len() > MAX_HITS {
        sorted.truncate(MAX_HITS);
    }
    let ghost cut: int = if full.len() < MAX_HITS { full.len() as int } else { MAX_HITS as int };
    assert(hits_view(sorted@) =~= full.take(cut));
    proof {
        law_fused_hits_ranks(fv, vv, full, cut);
        assert forall|i: int| 0 <= i < sorted@.len() implies (#[trigger] sorted@[i]).fts_rank == rank_in(fv, sorted@[i].id@)
            && sorted@[i].vec_rank == rank_in(vv, sorted@[i].id@) by {
            assert(hits_view(sorted@)[i] == sorted@[i]@);
        }
    }
    sorted
}

/// If `x` does not score higher than `p`, and `p` does not score lower
/// than `y` (or `y` is `p`), then `y` does not score higher than `x`...
/// stated for the insertion step: `x` was placed before `p`, which
/// scores lower than `x`; every later `y` scores at most `p`.
proof fn lemma_score_den_pos(h: HitV)
    ensures
        score(h).1 > 0,
        score(h).0 >= 0,
{
    match (h.fts, h.vec) {
        (Some(f), Some(v)) => {
            let a = 60 + f;
            let b = 60 + v;
            assert(a * b > 0) by (nonlinear_arith)
                requires
                    a > 0,
                    b > 0,
            ;
        },
        _ => {},
    }
}

proof fn lemma_not_higher_chain(x: HitV, p: HitV, y: HitV, same: bool)
    requires
        scores_higher(x, p),
        same ==> y == p,
        !same ==> !scores_higher(y, p),
    ensures
        !scores_higher(y, x),
{
    lemma_score_den_pos(x);
    lemma_score_den_pos(p);
    lemma_score_den_pos(y);
    let (xn, xd) = score(x);
    let (pn, pd) = score(p);
    let (yn, yd) = score(y);
    if !same {
        assert(yn * pd <= pn * yd);
        assert(xn * pd > pn * xd);
        assert(yn * xd <= xn * yd) by (nonlinear_arith)
            requires
                yn * pd <= pn * yd,
                xn * pd > pn * xd,
                xd > 0,
                pd > 0,
                yd > 0,
                yn >= 0,
                pn >= 0,
                xn >= 0,
        ;
    }
}

pub open spec fn only_fts(f: usize) -> HitV {
    HitV { id: Seq::empty(), title: Seq::empty(), kind: Seq::empty(), snippet: Seq::empty(), fts: Some(f), vec: None }
}

pub open spec fn in_both(f: usize, v: usize) -> HitV {
    HitV { id: Seq::empty(), title: Seq::empty(), kind: Seq::empty(), snippet: Seq::empty(), fts: Some(f), vec: Some(v) }
}

/// A hit both lists found scores higher than one only the full-text list
/// found at the same rank.
pub proof fn law_both_lists_beat_one(f: usize, v: usize)
    ensures
        scores_higher(in_both(f, v), only_fts(f)),
{
    let a = 60 + f;
    let b = 60 + v;
    assert((a + b) * a > 1 * (a * b)) by (nonlinear_arith)
        requires
            a > 0,
            b > 0,
    ;
}

/// Within one list, a better (smaller) rank scores higher.
pub proof fn law_better_rank_scores_higher(r1: usize, r2: usize)
    requires
        r1 < r2,
    ensures
        scores_higher(only_fts(r1), only_fts(r2)),
{
    assert(score(only_fts(r1)) == (1int, 60 + r1));
    assert(score(only_fts(r2)) == (1int, 60 + r2));
    assert(1 * (60 + r2) > 1 * (60 + r1)) by (nonlinear_arith)
        requires
            r1 < r2,
    ;
}

pub open spec fn only_vec(v: usize) -> HitV {
    HitV { id: Seq::empty(), title: Seq::empty(), kind: Seq::empty(), snippet: Seq::empty(), fts: None, vec: Some(v) }
}

/// A hit found only by the vector list at rank `r` scores `1 / (60 + r)`:
/// exactly as much as a hit found only by full text at the same rank
/// (neither outranks the other), and a better vector rank scores strictly
/// higher than a worse one.
pub proof fn law_vector_rank_scores(r1: usize, r2: usize)
    ensures
        score(only_vec(r1)).1 > 0,
        score(only_vec(r1)).0 * (60 + r1) == score(only_vec(r1)).1,
        !scores_higher(only_vec(r1), only_fts(r1)),
        !scores_higher(only_fts(r1), only_vec(r1)),
        r1 < r2 ==> scores_higher(only_vec(r1), only_vec(r2)),
{
    assert(score(only_vec(r1)) == (1int, 60 + r1));
    assert(score(only_vec(r2)) == (1int, 60 + r2));
    assert(score(only_fts(r1)) == (1int, 60 + r1));
    assert(1 * (60 + r1) == 60 + r1);
    assert(1 * (60 + r2) == 60 + r2);
}

proof fn lemma_find_hit_none(s: Seq<HitV>, id: Seq<char>, i: int)
    requires
        0 <= i,
        find_hit(s, id, i) is None,
    ensures
        forall|k: int| i <= k < s.len() ==> (#[trigger] s[k]).id != id,
    decreases s.len() - i,
{
    if i < s.len() {
        lemma_find_hit_none(s, id, i + 1);
    }
}

pub open spec fn ids_unique(s: Seq<HitV>) -> bool {
    forall|a: int, b: int| 0 <= a < b < s.len() ==> (#[trigger] s[a]).id != (#[trigger] s[b]).id
}

proof fn lemma_fts_unique(fts: Seq<RowV>, n: int)
    requires
        0 <= n <= fts.len(),
    ensures
        ids_unique(fts_fold(fts, n)),
    decreases n,
{
    if n > 0 {
        lemma_fts_unique(fts, n - 1);
        let s = fts_fold(fts, n - 1);
        lemma_find_hit_range(s, fts[n - 1].id, 0);
        if find_hit(s, fts[n - 1].id, 0) is None {
            lemma_find_hit_none(s, fts[n - 1].id, 0);
        }
    }
}

proof fn lemma_vec_unique(base: Seq<HitV>, vec: Seq<RowV>, m: int)
    requires
        0 <= m <= vec.len(),
        ids_unique(base),
    ensures
        ids_unique(vec_fold(base, vec, m)),
    decreases m,
{
    if m > 0 {
        lemma_vec_unique(base, vec, m - 1);
        let s = vec_fold(base, vec, m - 1);
        lemma_find_hit_range(s, vec[m - 1].id, 0);
        if find_hit(s, vec[m - 1].id, 0) is None {
            lemma_find_hit_none(s, vec[m - 1].id, 0);
        }
    }
}

/// Fusion lists each id once.
pub proof fn law_fused_ids_unique(fts: Seq<RowV>, vec: Seq<RowV>)
    ensures
        ids_unique(fused_spec(fts, vec)),
{
    lemma_fts_unique(fts, fts.len() as int);
    lemma_vec_unique(fts_fold(fts, fts.len() as int), vec, vec.len() as int);
}

/// No two rows share an id.
pub open spec fn rows_distinct(rows: Seq<RowV>) -> bool {
    forall|a: int, b: int| 0 <= a < b < rows.len() ==> (#[trigger] rows[a]).id != (#[trigger] rows[b]).id
}

/// The hit of full-text row `r` at rank `i`, found by full text only.
pub open spec fn fts_hit(r: RowV, i: int) -> HitV {
    HitV { id: r.id, title: r.title, kind: r.kind, snippet: r.snippet, fts: Some(i as usize), vec: None }
}

proof fn lemma_fts_fold_distinct(fts: Seq<RowV>, n: int)
    requires
        rows_distinct(fts),
        0 <= n <= fts.len(),
    ensures
        fts_fold(fts, n) == Seq::new(n as nat, |i: int| fts_hit(fts[i], i)),
    decreases n,
{
    if n == 0 {
        assert(fts_fold(fts, 0) =~= Seq::new(0, |i: int| fts_hit(fts[i], i)));
    } else {
        lemma_fts_fold_distinct(fts, n - 1);
        let s = fts_fold(fts, n - 1);
        let r = fts[n - 1];
        lemma_find_hit_range(s, r.id, 0);
        if let Some(k) = find_hit(s, r.id, 0) {
            assert(s[k] == fts_hit(fts[k], k));
            assert(fts[k].id == fts[n - 1].id);
        }
        assert(fts_fold(fts, n) =~= Seq::new(n as nat, |i: int| fts_hit(fts[i], i)));
    }
}

/// A list as long as a duplicate-free list that contains all of it holds
/// exactly its elements, each once.
proof fn lemma_same_len_cover<A>(s: Seq<A>, t: Seq<A>)
    requires
        s.len() == t.len(),
        t.no_duplicates(),
        forall|i: int| 0 <= i < t.len() ==> s.contains(#[trigger] t[i]),
    ensures
        s.no_duplicates(),
        forall|i: int| 0 <= i < s.len() ==> t.contains(#[trigger] s[i]),
    decreases t.len(),
{
    if t.len() > 0 {
        let n = t.len() as int;
        let e = t[n - 1];
        assert(s.contains(t[n - 1]));
        let w = choose|w: int| 0 <= w < s.len() && s[w] == e;
        let s2 = s.remove(w);
        let t2 = t.drop_last();
        assert forall|i: int| 0 <= i < t2.len() implies s2.contains(#[trigger] t2[i]) by {
            assert(t2[i] == t[i]);
            assert(s.contains(t[i]));
            let u = choose|u: int| 0 <= u < s.len() && s[u] == t[i];
            assert(t[i] != t[n - 1]);
            assert(u != w);
            if u < w {
                assert(s2[u] == s[u]);
            } else {
                assert(s2[u - 1] == s[u]);
            }
        }
        lemma_same_len_cover(s2, t2);
        assert forall|i: int| 0 <= i < s.len() implies t.contains(#[trigger] s[i]) by {
            if i == w {
                assert(t[n - 1] == s[i]);
            } else {
                let ii = if i < w { i } else { i - 1 };
                assert(s2[ii] == s[i]);
                assert(t2.contains(s2[ii]));
                let z = choose|z: int| 0 <= z < t2.len() && t2[z] == s2[ii];
                assert(t[z] == s[i]);
            }
        }
        assert forall|a: int, b: int| 0 <= a < s.len() && 0 <= b < s.len() && a != b implies s[a] != s[b] by {
            if a != w && b != w {
                let aa = if a < w { a } else { a - 1 };
                let bb = if b < w { b } else { b - 1 };
                assert(s2[aa] == s[a] && s2[bb] == s[b]);
            } else {
                let o = if a == w { b } else { a };
                let oo = if o < w { o } else { o - 1 };
                assert(s2[oo] == s[o]);
                assert(t2.contains(s2[oo]));
                let z = choose|z: int| 0 <= z < t2.len() && t2[z] == s2[oo];
                assert(t[z] == s[o]);
                assert(t[z] != t[n - 1]);
            }
        }
    }
}

proof fn lemma_increasing_lower(g: spec_fn(int) -> int, n: int, k: int)
    requires
        forall|a: int, b: int| 0 <= a < b < n ==> #[trigger] g(a) < #[trigger] g(b),
        forall|j: int| 0 <= j < n ==> 0 <= #[trigger] g(j) < n,
        0 <= k < n,
    ensures
        g(k) >= k,
    decreases k,
{
    if k > 0 {
        lemma_increasing_lower(g, n, k - 1);
        assert(g(k - 1) < g(k));
    } else {
        assert(0 <= g(0));
    }
}

proof fn lemma_increasing_upper(g: spec_fn(int) -> int, n: int, k: int)
    requires
        forall|a: int, b: int| 0 <= a < b < n ==> #[trigger] g(a) < #[trigger] g(b),
        forall|j: int| 0 <= j < n ==> 0 <= #[trigger] g(j) < n,
        0 <= k < n,
    ensures
        g(k) <= k,
    decreases n - k,
{
    if k < n - 1 {
        lemma_increasing_upper(g, n, k + 1);
        assert(g(k) < g(k + 1));
    } else {
        assert(g(k) < n);
    }
}

/// Without vector hits (no embedding provider, or a corpus not yet
/// indexed), fusion falls back to full-text search: whatever order the
/// fused hits may be sorted into, best score first, it is the full-text
/// list's own order, each row once, at its rank, found by full text only.
pub proof fn law_fts_only_fallback(fts: Seq<RowV>, sorted: Seq<HitV>)
    requires
        rows_distinct(fts),
        fts.len() < 0x1_0000_0000,
        sorted.len() == fused_spec(fts, Seq::empty()).len(),
        by_score_desc(sorted),
        forall|i: int|
            0 <= i < fused_spec(fts, Seq::empty()).len() ==> sorted.contains(
                #[trigger] fused_spec(fts, Seq::empty())[i],
            ),
    ensures
        sorted.len() == fts.len(),
        forall|i: int| 0 <= i < fts.len() ==> #[trigger] sorted[i] == fts_hit(fts[i], i),
{
    let n = fts.len() as int;
    let all = fused_spec(fts, Seq::empty());
    lemma_fts_fold_distinct(fts, n);
    assert(all == fts_fold(fts, n));
    assert(all.len() == n);
    assert forall|a: int, b: int| 0 <= a < all.len() && 0 <= b < all.len() && a != b implies all[a] != all[b] by {
        assert(all[a].fts == Some(a as usize));
        assert(all[b].fts == Some(b as usize));
    }
    lemma_same_len_cover(sorted, all);
    assert forall|k: int| 0 <= k < n implies (#[trigger] sorted[k]).fts is Some && (sorted[k].fts->0 as int) < n
        && sorted[k] == all[sorted[k].fts->0 as int] by {
        assert(all.contains(sorted[k]));
        let m = choose|m: int| 0 <= m < all.len() && all[m] == sorted[k];
        assert(all[m].fts == Some(m as usize));
    }
    let g = |k: int| sorted[k].fts->0 as int;
    assert forall|a: int, b: int| 0 <= a < b < n implies #[trigger] g(a) < #[trigger] g(b) by {
        assert(sorted[a].fts is Some && sorted[b].fts is Some);
        let fa = sorted[a].fts->0;
        let fb = sorted[b].fts->0;
        assert(sorted[a] == all[fa as int] && sorted[b] == all[fb as int]);
        assert(score(sorted[a]) == (1int, 60 + fa));
        assert(score(sorted[b]) == (1int, 60 + fb));
        assert(!scores_higher(sorted[b], sorted[a]));
        assert(1 * (60 + fa) == 60 + fa && 1 * (60 + fb) == 60 + fb);
        assert(fa <= fb);
        assert(sorted[a] != sorted[b]);
        assert(fa != fb);
        assert(g(a) == fa as int && g(b) == fb as int);
    }
    assert forall|j: int| 0 <= j < n implies 0 <= #[trigger] g(j) < n by {
        assert(sorted[j].fts is Some);
    }
    assert forall|i: int| 0 <= i < n implies #[trigger] sorted[i] == fts_hit(fts[i], i) by {
        lemma_increasing_lower(g, n, i);
        lemma_increasing_upper(g, n, i);
        assert(g(i) == i);
        assert(sorted[i] == all[i]);
    }
}

/// The last of the first `n` rows of a list that has id `id`, by position.
pub open spec fn last_rank(rows: Seq<RowV>, id: Seq<char>, n: int) -> Option<usize>
    decreases n,
{
    if n <= 0 || n > rows.len() {
        None
    } else if rows[n - 1].id == id {
        Some((n - 1) as usize)
    } else {
        last_rank(rows, id, n - 1)
    }
}

/// The rank a search half gives an id: its position in the list (the
/// last one, should the id occur twice); `None` when the list lacks it.
pub open spec fn rank_in(rows: Seq<RowV>, id: Seq<char>) -> Option<usize> {
    last_rank(rows, id, rows.len() as int)
}

proof fn lemma_find_hit_some(s: Seq<HitV>, id: Seq<char>, i: int, j: int)
    requires
        0 <= i <= j < s.len(),
        s[j].id == id,
    ensures
        find_hit(s, id, i) is Some,
    decreases j - i,
{
    if s[i].id != id {
        lemma_find_hit_some(s, id, i + 1, j);
    }
}

/// Every id of `s` is still found in `t`, which keeps the ids of `s` at
/// their places.
proof fn lemma_find_hit_kept(s: Seq<HitV>, t: Seq<HitV>, id: Seq<char>)
    requires
        find_hit(s, id, 0) is Some,
        s.len() <= t.len(),
        forall|j: int| 0 <= j < s.len() ==> (#[trigger] t[j]).id == s[j].id,
    ensures
        find_hit(t, id, 0) is Some,
{
    lemma_find_hit_range(s, id, 0);
    let k = find_hit(s, id, 0)->0;
    assert(t[k].id == s[k].id);
    lemma_find_hit_some(t, id, 0, k);
}

proof fn lemma_fts_fold_ranks(fts: Seq<RowV>, n: int)
    requires
        0 <= n <= fts.len(),
    ensures
        forall|i: int|
            0 <= i < fts_fold(fts, n).len() ==> (#[trigger] fts_fold(fts, n)[i]).fts == last_rank(
                fts,
                fts_fold(fts, n)[i].id,
                n,
            ) && fts_fold(fts, n)[i].vec is None,
        forall|id: Seq<char>| #[trigger] last_rank(fts, id, n) is Some ==> find_hit(fts_fold(fts, n), id, 0) is Some,
    decreases n,
{
    if n > 0 {
        lemma_fts_fold_ranks(fts, n - 1);
        lemma_fts_unique(fts, n - 1);
        let s = fts_fold(fts, n - 1);
        let r = fts[n - 1];
        let t = fts_fold(fts, n);
        lemma_find_hit_range(s, r.id, 0);
        match find_hit(s, r.id, 0) {
            Some(k) => {
                assert forall|i: int| 0 <= i < t.len() implies (#[trigger] t[i]).fts == last_rank(fts, t[i].id, n)
                    && t[i].vec is None by {
                    if i != k {
                        assert(t[i] == s[i]);
                        assert(s[i].id != s[k].id);
                    }
                }
                assert forall|j: int| 0 <= j < s.len() implies (#[trigger] t[j]).id == s[j].id by {}
                assert forall|id: Seq<char>| #[trigger] last_rank(fts, id, n) is Some implies find_hit(t, id, 0) is Some by {
                    if id == r.id {
                        lemma_find_hit_some(t, id, 0, k);
                    } else {
                        assert(last_rank(fts, id, n - 1) is Some);
                        lemma_find_hit_kept(s, t, id);
                    }
                }
            },
            None => {
                lemma_find_hit_none(s, r.id, 0);
                assert forall|i: int| 0 <= i < t.len() implies (#[trigger] t[i]).fts == last_rank(fts, t[i].id, n)
                    && t[i].vec is None by {
                    if i < s.len() {
                        assert(t[i] == s[i]);
                    }
                }
                assert forall|j: int| 0 <= j < s.len() implies (#[trigger] t[j]).id == s[j].id by {}
                assert forall|id: Seq<char>| #[trigger] last_rank(fts, id, n) is Some implies find_hit(t, id, 0) is Some by {
                    if id == r.id {
                        lemma_find_hit_some(t, id, 0, s.len() as int);
                    } else {
                        assert(last_rank(fts, id, n - 1) is Some);
                        lemma_find_hit_kept(s, t, id);
                    }
                }
            },
        }
    }
}

proof fn lemma_vec_fold_ranks(fts: Seq<RowV>, base: Seq<HitV>, vec: Seq<RowV>, m: int)
    requires
        0 <= m <= vec.len(),
        ids_unique(base),
        forall|i: int|
            0 <= i < base.len() ==> (#[trigger] base[i]).fts == rank_in(fts, base[i].id) && base[i].vec is None,
        forall|id: Seq<char>| #[trigger] rank_in(fts, id) is Some ==> find_hit(base, id, 0) is Some,
    ensures
        forall|i: int|
            0 <= i < vec_fold(base, vec, m).len() ==> (#[trigger] vec_fold(base, vec, m)[i]).fts == rank_in(
                fts,
                vec_fold(base, vec, m)[i].id,
            ) && vec_fold(base, vec, m)[i].vec == last_rank(vec, vec_fold(base, vec, m)[i].id, m),
        forall|id: Seq<char>| #[trigger] rank_in(fts, id) is Some ==> find_hit(vec_fold(base, vec, m), id, 0) is Some,
        forall|id: Seq<char>| #[trigger] last_rank(vec, id, m) is Some ==> find_hit(vec_fold(base, vec, m), id, 0) is Some,
    decreases m,
{
    if m == 0 {
        assert(vec_fold(base, vec, 0) == base);
    } else {
        lemma_vec_fold_ranks(fts, base, vec, m - 1);
        lemma_vec_unique(base, vec, m - 1);
        let s = vec_fold(base, vec, m - 1);
        let r = vec[m - 1];
        let t = vec_fold(base, vec, m);
        lemma_find_hit_range(s, r.id, 0);
        match find_hit(s, r.id, 0) {
            Some(k) => {
                assert forall|i: int| 0 <= i < t.len() implies (#[trigger] t[i]).fts == rank_in(fts, t[i].id)
                    && t[i].vec == last_rank(vec, t[i].id, m) by {
                    if i != k {
                        assert(t[i] == s[i]);
                        assert(s[i].id != s[k].id);
                    }
                }
                assert forall|j: int| 0 <= j < s.len() implies (#[trigger] t[j]).id == s[j].id by {}
                assert forall|id: Seq<char>| #[trigger] rank_in(fts, id) is Some implies find_hit(t, id, 0) is Some by {
                    lemma_find_hit_kept(s, t, id);
                }
                assert forall|id: Seq<char>| #[trigger] last_rank(vec, id, m) is Some implies find_hit(t, id, 0) is Some by {
                    if id == r.id {
                        lemma_find_hit_some(t, id, 0, k);
                    } else {
                        assert(last_rank(vec, id, m - 1) is Some);
                        lemma_find_hit_kept(s, t, id);
                    }
                }
            },
            None => {
                lemma_find_hit_none(s, r.id, 0);
                assert(rank_in(fts, r.id) is None);
                assert forall|i: int| 0 <= i < t.len() implies (#[trigger] t[i]).fts == rank_in(fts, t[i].id)
                    && t[i].vec == last_rank(vec, t[i].id, m) by {
                    if i < s.len() {
                        assert(t[i] == s[i]);
                    }
                }
                assert forall|j: int| 0 <= j < s.len() implies (#[trigger] t[j]).id == s[j].id by {}
                assert forall|id: Seq<char>| #[trigger] rank_in(fts, id) is Some implies find_hit(t, id, 0) is Some by {
                    lemma_find_hit_kept(s, t, id);
                }
                assert forall|id: Seq<char>| #[trigger] last_rank(vec, id, m) is Some implies find_hit(t, id, 0) is Some by {
                    if id == r.id {
                        lemma_find_hit_some(t, id, 0, s.len() as int);
                    } else {
                        assert(last_rank(vec, id, m - 1) is Some);
                        lemma_find_hit_kept(s, t, id);
                    }
                }
            },
        }
    }
}

/// Fusion keeps every id either half found, once, with its rank in each
/// half: a fused hit's full-text and vector ranks are its positions in
/// the two lists (absent where a list lacks it).
pub proof fn law_fusion_ranks(fts: Seq<RowV>, vec: Seq<RowV>)
    ensures
        ({
            let all = fused_spec(fts, vec);
            &&& ids_unique(all)
            &&& forall|i: int|
                0 <= i < all.len() ==> (#[trigger] all[i]).fts == rank_in(fts, all[i].id) && all[i].vec == rank_in(
                    vec,
                    all[i].id,
                )
            &&& forall|id: Seq<char>|
                (#[trigger] rank_in(fts, id) is Some || #[trigger] rank_in(vec, id) is Some) ==> exists|i: int|
                    0 <= i < all.len() && (#[trigger] all[i]).id == id
        }),
{
    let nf = fts.len() as int;
    lemma_fts_fold_ranks(fts, nf);
    lemma_fts_unique(fts, nf);
    let base = fts_fold(fts, nf);
    lemma_vec_fold_ranks(fts, base, vec, vec.len() as int);
    law_fused_ids_unique(fts, vec);
    let all = fused_spec(fts, vec);
    assert forall|id: Seq<char>| (#[trigger] rank_in(fts, id) is Some || #[trigger] rank_in(vec, id) is Some) implies exists|i: int|
        0 <= i < all.len() && (#[trigger] all[i]).id == id by {
        assert(find_hit(all, id, 0) is Some);
        lemma_find_hit_range(all, id, 0);
        let k = find_hit(all, id, 0)->0;
        assert(all[k].id == id);
    }
}

/// What `fuse_hits` returns, a best-first ordering of the fused hits cut
/// to 50, holds each hit once: no two share an id, and each carries its
/// rank in each half.
pub proof fn law_fused_hits_ranks(fts: Seq<RowV>, vec: Seq<RowV>, sorted: Seq<HitV>, n: int)
    requires
        sorted.len() == fused_spec(fts, vec).len(),
        forall|i: int| 0 <= i < fused_spec(fts, vec).len() ==> sorted.contains(#[trigger] fused_spec(fts, vec)[i]),
        0 <= n <= sorted.len(),
    ensures
        ids_unique(sorted.take(n)),
        forall|i: int|
            0 <= i < n ==> (#[trigger] sorted.take(n)[i]).fts == rank_in(fts, sorted.take(n)[i].id)
                && sorted.take(n)[i].vec == rank_in(vec, sorted.take(n)[i].id),
{
    let all = fused_spec(fts, vec);
    law_fusion_ranks(fts, vec);
    assert forall|a: int, b: int| 0 <= a < all.len() && 0 <= b < all.len() && a != b implies all[a] != all[b] by {
        assert(all[a].id != all[b].id);
    }
    lemma_same_len_cover(sorted, all);
    let p = sorted.take(n);
    assert forall|i: int| 0 <= i < n implies (#[trigger] p[i]).fts == rank_in(fts, p[i].id) && p[i].vec == rank_in(
        vec,
        p[i].id,
    ) by {
        assert(p[i] == sorted[i]);
        assert(all.contains(sorted[i]));
    }
    assert forall|a: int, b: int| 0 <= a < b < p.len() implies (#[trigger] p[a]).id != (#[trigger] p[b]).id by {
        assert(p[a] == sorted[a] && p[b] == sorted[b]);
        assert(sorted[a] != sorted[b]);
        assert(all.contains(sorted[a]) && all.contains(sorted[b]));
        let x = choose|x: int| 0 <= x < all.len() && all[x] == sorted[a];
        let y = choose|y: int| 0 <= y < all.len() && all[y] == sorted[b];
        assert(x != y);
    }
}

/// What one re-indexing did.
#[derive(Debug)]
pub struct EmbedReport {
    pub provider: String,
    pub model: String,
    pub entities_processed: usize,
    pub chunks_embedded: usize,
}

/// Chunks embedded per request.
pub const EMBED_BATCH: usize = 16;

/// One chunk to embed: its entity, its position among the entity's
/// chunks, and its text.
#[derive(Debug)]
pub struct ChunkJob {
    pub entity_id: String,
    pub chunk_idx: usize,
    pub text: String,
}

pub struct JobV {
    pub entity: Seq<char>,
    pub idx: usize,
    pub text: Seq<char>,
}

impl View for ChunkJob {
    type V = JobV;

    open spec fn view(&self) -> JobV {
        JobV { entity: self.entity_id@, idx: self.chunk_idx, text: self.text@ }
    }
}

pub open spec fn jobs_view(v: Seq<ChunkJob>) -> Seq<JobV> {
    v.map_values(|j: ChunkJob| j@)
}

/// The jobs of one entity's chunks, in order.
pub open spec fn entity_jobs(id: Seq<char>, chunks: Seq<Seq<char>>) -> Seq<JobV> {
    Seq::new(chunks.len(), |i: int| JobV { entity: id, idx: i as usize, text: chunks[i] })
}

/// Gathers chunk jobs into batches of 16 and counts what was indexed.
#[derive(Debug)]
pub struct EmbedBatcher {
    pub pending: Vec<ChunkJob>,
    pub entities_processed: usize,
    pub chunks_embedded: usize,
}

impl EmbedBatcher {
    /// Fewer than a batch is ever left waiting.
    pub open spec fn wf(&self) -> bool {
        self.pending@.len() < EMBED_BATCH
    }

    pub fn new() -> (b: EmbedBatcher)
        ensures
            b.wf(),
            b.pending@.len() == 0,
            b.entities_processed == 0,
            b.chunks_embedded == 0,
    {
        EmbedBatcher { pending: Vec::new(), entities_processed: 0, chunks_embedded: 0 }
    }

    /// Chunk an entity's body and queue its chunks; hand back every full
    /// batch now ready, oldest first. An entity with no chunk is skipped
    /// and not counted.
    pub fn add_entity(&mut self, entity_id: &str, body: &str) -> (batches: Vec<Vec<ChunkJob>>)
        requires
            old(self).wf(),
            old(self).entities_processed < usize::MAX,
        ensures
            final(self).wf(),
            ({
                let chunks = chunks_spec(body@);
                let all = jobs_view(old(self).pending@) + entity_jobs(entity_id@, chunks);
                &&& final(self).entities_processed == old(self).entities_processed + if chunks.len() > 0 {
                    1int
                } else {
                    0int
                }
                &&& batches@.len() == (all.len() as int) / (EMBED_BATCH as int)
                &&& forall|k: int|
                    0 <= k < batches@.len() ==> jobs_view((#[trigger] batches@[k])@) == all.subrange(
                        k * EMBED_BATCH,
                        k * EMBED_BATCH + EMBED_BATCH,
                    )
                &&& jobs_view(final(self).pending@) == all.skip(batches@.len() * EMBED_BATCH)
            }),
            final(self).chunks_embedded == old(self).chunks_embedded,
    {
        let chunks = chunk_paragraphs(body);
        let ghost cv = chunks@.map_values(|c: String| c@);
        let ghost start = jobs_view(self.pending@);
        if chunks.len() > 0 {
            self.entities_processed = self.entities_processed + 1;
        }
        let ghost processed = self.entities_processed;
        let ghost target = start + entity_jobs(entity_id@, cv);
        let mut batches: Vec<Vec<ChunkJob>> = Vec::new();
        let mut i: usize = 0;
        while i < chunks.len()
            invariant
                i <= chunks@.len(),
                cv == chunks@.map_values(|c: String| c@),
                target == start + entity_jobs(entity_id@, cv),
                self.entities_processed == processed,
                self.chunks_embedded == old(self).chunks_embedded,
                self.pending@.len() < EMBED_BATCH,
                batches@.len() * EMBED_BATCH + self.pending@.len() == start.len() + i,
                forall|k: int|
                    0 <= k < batches@.len() ==> jobs_view((#[trigger] batches@[k])@) == target.subrange(
                        k * EMBED_BATCH,
                        k * EMBED_BATCH + EMBED_BATCH,
                    ),
                jobs_view(self.pending@) == target.subrange(batches@.len() * EMBED_BATCH, start.len() + i),
            decreases chunks@.len() - i,
        {
            let job = ChunkJob { entity_id: entity_id.to_owned(), chunk_idx: i, text: chunks[i].clone() };
            let ghost before = jobs_view(self.pending@);
            self.pending.push(job);
            proof {
                let b = batches@.len() * EMBED_BATCH;
                assert(target[start.len() + i] == job@);
                assert(jobs_view(self.pending@) =~= target.subrange(b, start.len() + i + 1));
            }
            if self.pending.len() == EMBED_BATCH {
                let mut batch: Vec<ChunkJob> = Vec::new();
                std::mem::swap(&mut batch, &mut self.pending);
                let ghost bv = jobs_view(batch@);
                batches.push(batch);
                proof {
                    assert(jobs_view(self.pending@) =~= Seq::<JobV>::empty());
                    let k = batches@.len() - 1;
                    assert(jobs_view(batches@[k]@) == bv);
                    assert(target.subrange(batches@.len() * EMBED_BATCH, start.len() + i + 1) =~= Seq::<JobV>::empty());
                }
            }
            i = i + 1;
        }
        proof {
            assert(target.len() == start.len() + chunks@.len());
            let nb = batches@.len();
            assert(nb * EMBED_BATCH + self.pending@.len() == target.len());
            assert(nb == (target.len() as int) / (EMBED_BATCH as int)) by (nonlinear_arith)
                requires
                    nb * 16 + self.pending@.len() == target.len(),
                    self.pending@.len() < 16,
            ;
            assert(target.skip(nb * EMBED_BATCH) =~= target.subrange(nb * EMBED_BATCH, target.len() as int));
        }
        batches
    }

    /// The jobs still waiting, as a last batch; nothing is left after.
    pub fn finish(&mut self) -> (last: Option<Vec<ChunkJob>>)
        requires
            old(self).wf(),
        ensures
            final(self).wf(),
            final(self).pending@.len() == 0,
            match last {
                Some(b) => old(self).pending@.len() > 0 && b@ == old(self).pending@,
                None => old(self).pending@.len() == 0,
            },
            final(self).entities_processed == old(self).entities_processed,
            final(self).chunks_embedded == old(self).chunks_embedded,
    {
        if self.pending.len() == 0 {
            return None;
        }
        let mut batch: Vec<ChunkJob> = Vec::new();
        std::mem::swap(&mut batch, &mut self.pending);
        Some(batch)
    }

    /// `n` chunks were embedded and stored.
    pub fn note_embedded(&mut self, n: usize)
        requires
            old(self).chunks_embedded + n <= usize::MAX,
        ensures
            final(self).chunks_embedded == old(self).chunks_embedded + n,
            final(self).entities_processed == old(self).entities_processed,
            final(self).pending@ == old(self).pending@,
    {
        self.chunks_embedded = self.chunks_embedded + n;
    }
}

/// Anthropic offers no embeddings: re-indexing needs another provider.
pub fn check_embedding_provider(provider_id: &str) -> (r: Result<(), String>)
    ensures
        r is Ok <==> provider_id@ != "anthropic"@,
        r matches Err(e) ==> e@ == "anthropic does not provide embeddings; configure ollama at /settings/llm and pull an embedding model (e.g. `ollama pull nomic-embed-text`) before reindexing"@,
{
    if crate::text::str_eq(provider_id, "anthropic") {
        Err("anthropic does not provide embeddings; configure ollama at /settings/llm and pull an embedding model (e.g. `ollama pull nomic-embed-text`) before reindexing".to_owned())
    } else {
        Ok(())
    }
}

/// One vector per chunk, or the error saying how many came back.
pub fn check_vector_count(got: usize, want: usize) -> (r: Result<(), String>)
    ensures
        r is Ok <==> got == want,
        r matches Err(e) ==> e@ == "embed returned "@ + nat_decimal(got as nat) + " vectors for "@
            + nat_decimal(want as nat) + " chunks"@,
{
    if got == want {
        return Ok(());
    }
    let mut m = "embed returned ".to_owned();
    let a = u64_to_string(got as u64);
    m.append(a.as_str());
    m.append(" vectors for ");
    let b = u64_to_string(want as u64);
    m.append(b.as_str());
    m.append(" chunks");
    Err(m)
}

/// Every stored vector has 768 dimensions.
pub fn check_embedding_dim(model: &str, dims: usize) -> (r: Result<(), String>)
    ensures
        r is Ok <==> dims == EMBED_DIM,
        r matches Err(e) ==> e@ == "embedding dimension mismatch: model `"@ + model@ + "` returned "@
            + nat_decimal(dims as nat) + " dims, expected 768. Use a 768-dim model (e.g. `nomic-embed-text`)."@,
{
    if dims == EMBED_DIM {
        return Ok(());
    }
    let mut m = "embedding dimension mismatch: model `".to_owned();
    m.append(model);
    m.append("` returned ");
    let a = u64_to_string(dims as u64);
    m.append(a.as_str());
    m.append(" dims, expected 768. Use a 768-dim model (e.g. `nomic-embed-text`).");
    Err(m)
}

/// The query's vector must have 768 dimensions.
pub fn check_query_dim(dims: usize) -> (r: Result<(), String>)
    ensures
        r is Ok <==> dims == EMBED_DIM,
        r matches Err(e) ==> e@ == "query embedding has "@ + nat_decimal(dims as nat) + " dims, expected 768"@,
{
    if dims == EMBED_DIM {
        return Ok(());
    }
    let mut m = "query embedding has ".to_owned();
    let a = u64_to_string(dims as u64);
    m.append(a.as_str());
    m.append(" dims, expected 768");
    Err(m)
}

/// The vector half's rows: the first (closest) row of each entity, at
/// most 50.
pub open spec fn dedupe_spec(raw: Seq<RowV>, n: int) -> Seq<RowV>
    decreases n,
{
    if n <= 0 || n > raw.len() {
        Seq::empty()
    } else {
        let prev = dedupe_spec(raw, n - 1);
        if prev.len() >= 50 || exists|i: int| 0 <= i < prev.len() && (#[trigger] prev[i]).id == raw[n - 1].id {
            prev
        } else {
            prev.push(raw[n - 1])
        }
    }
}

fn copy_row(r: &SearchRow) -> (c: SearchRow)
    ensures
        c@ == r@,
{
    SearchRow { id: r.id.clone(), title: r.title.clone(), kind: r.kind.clone(), snippet: r.snippet.clone() }
}

/// Keep the first row of each entity, up to 50 rows.
pub fn dedupe_vector_rows(raw: &Vec<SearchRow>) -> (out: Vec<SearchRow>)
    ensures
        rows_view(out@) == dedupe_spec(rows_view(raw@), raw@.len() as int),
{
    let ghost rv = rows_view(raw@);
    let mut out: Vec<SearchRow> = Vec::new();
    let mut i: usize = 0;
    while i < raw.len()
        invariant
            i <= raw@.len(),
            rv == rows_view(raw@),
            rows_view(out@) == dedupe_spec(rv, i as int),
        decreases raw@.len() - i,
    {
        let ghost prev = rows_view(out@);
        assert(rv[i as int] == raw@[i as int]@);
        if out.len() < 50 {
            let mut seen = false;
            let mut k: usize = 0;
            while k < out.len()
                invariant
                    k <= out@.len(),
                    i < raw@.len(),
                    prev == rows_view(out@),
                    rv == rows_view(raw@),
                    seen <==> exists|q: int| 0 <= q < k && (#[trigger] prev[q]).id == rv[i as int].id,
                decreases out@.len() - k,
            {
                if crate::text::str_eq(out[k].id.as_str(), raw[i].id.as_str()) {
                    assert(prev[k as int].id == rv[i as int].id);
                    seen = true;
                }
                k = k + 1;
            }
            if !seen {
                let c = copy_row(&raw[i]);
                out.push(c);
                assert(rows_view(out@) =~= prev.push(rv[i as int]));
            }
        }
        i = i + 1;
    }
    out
}

} // verus!
