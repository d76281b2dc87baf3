//! Server-Sent-Events framing for streamed LLM replies.
//!
//! Bytes arrive in arbitrary fragments; frames are separated by a blank
//! line, with LF or CRLF line endings (`\n\n`, `\r\n\r\n`, or a mix of
//! the two): the stream is read as if every CRLF were an LF.
//! [`SseBuffer::push`] keeps the incomplete tail and hands back one
//! [`SseEvent`] per complete frame that carries an `event:` or a `data:`
//! field.

use vstd::prelude::*;
use crate::text::{opt_view, chars_of, has_prefix, has_prefix_at, push_range, skip_ws_forward, string_from_chars, trim_bounds, trim_spec, trim_start_spec};

verus! {

/// The length of the frame separator starting at `i` (0 when none does):
/// a line ending (`\n` or `\r\n`) directly followed by another.
pub open spec fn sep_at(s: Seq<char>, i: int) -> int {
    if 0 <= i && i + 1 < s.len() && s[i] == '\n' && s[i + 1] == '\n' {
        2
    } else if 0 <= i && i + 2 < s.len() && s[i] == '\n' && s[i + 1] == '\r' && s[i + 2] == '\n' {
        3
    } else if 0 <= i && i + 2 < s.len() && s[i] == '\r' && s[i + 1] == '\n' && s[i + 2] == '\n' {
        3
    } else if 0 <= i && i + 3 < s.len() && s[i] == '\r' && s[i + 1] == '\n' && s[i + 2] == '\r' && s[i + 3]
        == '\n' {
        4
    } else {
        0
    }
}

/// First index `p >= i` where a frame separator starts.
pub open spec fn find_blank_from(s: Seq<char>, i: int) -> Option<int>
    decreases s.len() - i,
{
    if i < 0 || i + 1 >= s.len() {
        None
    } else if sep_at(s, i) > 0 {
        Some(i)
    } else {
        find_blank_from(s, i + 1)
    }
}

/// First index `p >= i` with `s[p] == '\n'`.
pub open spec fn find_nl_from(s: Seq<char>, i: int) -> Option<int>
    decreases s.len() - i,
{
    if i < 0 || i >= s.len() {
        None
    } else if s[i] == '\n' {
        Some(i)
    } else {
        find_nl_from(s, i + 1)
    }
}

/// The complete frames of `s` (split at each first-found separator) and
/// the incomplete tail that follows the last separator.
pub open spec fn split_frames(s: Seq<char>) -> (Seq<Seq<char>>, Seq<char>)
    decreases s.len(),
{
    match find_blank_from(s, 0) {
        Some(p) => if 0 <= p && sep_at(s, p) > 0 && p + sep_at(s, p) <= s.len() {
            let r = split_frames(s.skip(p + sep_at(s, p)));
            (seq![s.take(p)] + r.0, r.1)
        } else {
            (Seq::empty(), s)
        },
        None => (Seq::empty(), s),
    }
}

/// A line without its trailing carriage return.
pub open spec fn strip_cr(l: Seq<char>) -> Seq<char> {
    if l.len() > 0 && l.last() == '\r' {
        l.drop_last()
    } else {
        l
    }
}

/// `str::lines`: split at `\n`, a `\r` before a `\n` is dropped, the final
/// line ending is optional and a trailing empty piece is not a line.
pub open spec fn lines_spec(s: Seq<char>) -> Seq<Seq<char>>
    decreases s.len(),
{
    if s.len() == 0 {
        Seq::empty()
    } else {
        match find_nl_from(s, 0) {
            Some(p) => if 0 <= p < s.len() {
                seq![strip_cr(s.take(p))] + lines_spec(s.skip(p + 1))
            } else {
                seq![s]
            },
            None => seq![s],
        }
    }
}

pub open spec fn event_tag() -> Seq<char> {
    seq!['e', 'v', 'e', 'n', 't', ':']
}

pub open spec fn data_tag() -> Seq<char> {
    seq!['d', 'a', 't', 'a', ':']
}

/// The (event name, data) of an event.
pub type SseEventView = (Option<Seq<char>>, Seq<char>);

/// One line's effect on the frame being read: `event:` sets the (trimmed)
/// name, `data:` appends its value (leading whitespace dropped), joined to
/// earlier data by `\n`; any other line (comment, `id:`, `retry:`) is ignored.
pub open spec fn apply_line(st: SseEventView, line: Seq<char>) -> SseEventView {
    if has_prefix(line, event_tag()) {
        (Some(trim_spec(line.skip(6))), st.1)
    } else if has_prefix(line, data_tag()) {
        let d = if st.1.len() > 0 {
            st.1.push('\n')
        } else {
            st.1
        };
        (st.0, d + trim_start_spec(line.skip(5)))
    } else {
        st
    }
}

pub open spec fn fold_lines(st: SseEventView, lines: Seq<Seq<char>>) -> SseEventView
    decreases lines.len(),
{
    if lines.len() == 0 {
        st
    } else {
        fold_lines(apply_line(st, lines[0]), lines.skip(1))
    }
}

/// The event a frame carries: none when it names no event and has no data.
pub open spec fn parse_frame_spec(f: Seq<char>) -> Option<SseEventView> {
    let st = fold_lines((None, Seq::empty()), lines_spec(f));
    if st.1.len() == 0 && st.0 is None {
        None
    } else {
        Some(st)
    }
}

/// The events carried by a sequence of frames, in order.
pub open spec fn events_of(frames: Seq<Seq<char>>) -> Seq<SseEventView>
    decreases frames.len(),
{
    if frames.len() == 0 {
        Seq::empty()
    } else {
        match parse_frame_spec(frames[0]) {
            Some(e) => seq![e] + events_of(frames.skip(1)),
            None => events_of(frames.skip(1)),
        }
    }
}

/// Pushing `chunk` onto a buffer holding `accum`: the events of the frames
/// now complete, and the tail left in the buffer.
pub open spec fn push_spec(accum: Seq<char>, chunk: Seq<char>) -> (Seq<SseEventView>, Seq<char>) {
    let sp = split_frames(accum + chunk);
    (events_of(sp.0), sp.1)
}

/// One decoded Server-Sent Event.
#[derive(Debug, PartialEq, Eq)]
pub struct SseEvent {
    pub event: Option<String>,
    pub data: String,
}

impl View for SseEvent {
    type V = SseEventView;

    open spec fn view(&self) -> SseEventView {
        (
            opt_view(self.event),
            self.data@,
        )
    }
}

/// Accumulates streamed text and splits it into SSE frames.
#[derive(Debug)]
pub struct SseBuffer {
    accum: String,
}

impl View for SseBuffer {
    type V = Seq<char>;

    closed spec fn view(&self) -> Seq<char> {
        self.accum@
    }
}

proof fn lemma_find_blank_from(s: Seq<char>, i: int)
    requires
        0 <= i,
    ensures
        find_blank_from(s, i) matches Some(p) ==> {
            &&& i <= p && sep_at(s, p) > 0 && p + sep_at(s, p) <= s.len()
            &&& forall|j: int| i <= j < p ==> #[trigger] sep_at(s, j) == 0
        },
        find_blank_from(s, i) is None ==> forall|j: int| i <= j ==> #[trigger] sep_at(s, j) == 0,
    decreases s.len() - i,
{
    if i + 1 < s.len() && sep_at(s, i) == 0 {
        lemma_find_blank_from(s, i + 1);
    }
}

proof fn lemma_sep_at_skip(s: Seq<char>, k: int, i: int)
    requires
        0 <= k <= s.len(),
        0 <= i,
    ensures
        sep_at(s.skip(k), i) == sep_at(s, k + i),
{
    let t = s.skip(k);
    if i < t.len() {
        assert(t[i] == s[k + i]);
    }
    if i + 1 < t.len() {
        assert(t[i + 1] == s[k + i + 1]);
    }
    if i + 2 < t.len() {
        assert(t[i + 2] == s[k + i + 2]);
    }
    if i + 3 < t.len() {
        assert(t[i + 3] == s[k + i + 3]);
    }
}

/// The separator length at `i` of the text held in `v`.
fn sep_len(v: &Vec<char>, i: usize) -> (n: usize)
    ensures
        n == sep_at(v@, i as int),
{
    let n = v.len();
    if i < n && n - i >= 2 && v[i] == '\n' && v[i + 1] == '\n' {
        2
    } else if i < n && n - i >= 3 && v[i] == '\n' && v[i + 1] == '\r' && v[i + 2] == '\n' {
        3
    } else if i < n && n - i >= 3 && v[i] == '\r' && v[i + 1] == '\n' && v[i + 2] == '\n' {
        3
    } else if i < n && n - i >= 4 && v[i] == '\r' && v[i + 1] == '\n' && v[i + 2] == '\r' && v[i + 3] == '\n' {
        4
    } else {
        0
    }
}

proof fn lemma_find_nl_skip(s: Seq<char>, i: int, k: int)
    requires
        0 <= i <= k <= s.len(),
        forall|j: int| i <= j < k ==> #[trigger] s[j] != '\n',
    ensures
        find_nl_from(s, i) == find_nl_from(s, k),
    decreases k - i,
{
    if i < k {
        assert(s[i] != '\n');
        lemma_find_nl_skip(s, i + 1, k);
    }
}

/// Read the lines of `v[lo..hi]` as one SSE frame.
fn parse_frame_chars(v: &[char], lo: usize, hi: usize) -> (r: Option<SseEvent>)
    requires
        lo <= hi <= v@.len(),
    ensures
        match r {
            Some(e) => parse_frame_spec(v@.subrange(lo as int, hi as int)) == Some(e@),
            None => parse_frame_spec(v@.subrange(lo as int, hi as int)) is None,
        },
{
    let ghost whole = v@.subrange(lo as int, hi as int);
    let event_p: [char; 6] = ['e', 'v', 'e', 'n', 't', ':'];
    let data_p: [char; 5] = ['d', 'a', 't', 'a', ':'];
    assert(event_p@ == event_tag());
    assert(data_p@ == data_tag());
    let mut event: Option<String> = None;
    let mut data: Vec<char> = Vec::new();
    let mut pos = lo;
    assert(whole == v@.subrange(pos as int, hi as int));
    while pos < hi
        invariant
            lo <= pos <= hi <= v@.len(),
            event_p@ == event_tag(),
            data_p@ == data_tag(),
            whole == v@.subrange(lo as int, hi as int),
            fold_lines(
                (opt_view(event), data@),
                lines_spec(v@.subrange(pos as int, hi as int)),
            ) == fold_lines((None, Seq::empty()), lines_spec(whole)),
        decreases hi - pos,
    {
        let ghost rest = v@.subrange(pos as int, hi as int);
        let ghost st = (opt_view(event), data@);
        let mut q = pos;
        while q < hi && v[q] != '\n'
            invariant
                pos <= q <= hi <= v@.len(),
                forall|j: int| pos <= j < q ==> #[trigger] v@[j] != '\n',
            decreases hi - q,
        {
            q = q + 1;
        }
        proof {
            assert forall|j: int| 0 <= j < q - pos implies #[trigger] rest[j] != '\n' by {
                assert(rest[j] == v@[pos + j]);
            }
            lemma_find_nl_skip(rest, 0, (q - pos) as int);
        }
        let line_end = if q < hi && q > pos && v[q - 1] == '\r' {
            q - 1
        } else {
            q
        };
        let ghost line = v@.subrange(pos as int, line_end as int);
        proof {
            if q < hi {
                assert(rest[q - pos] == '\n');
                assert(find_nl_from(rest, (q - pos) as int) == Some((q - pos) as int));
                assert(rest.take((q - pos) as int) == v@.subrange(pos as int, q as int));
                assert(strip_cr(v@.subrange(pos as int, q as int)) == line);
                assert(rest.skip((q - pos) + 1) == v@.subrange(q + 1, hi as int));
                assert(lines_spec(rest) == seq![line] + lines_spec(v@.subrange(q + 1, hi as int)));
            } else {
                assert(find_nl_from(rest, (q - pos) as int) is None);
                assert(rest == line);
                assert(lines_spec(rest) == seq![line]);
            }
        }
        if has_prefix_at(v, pos, line_end, &event_p) {
            let (a, b) = trim_bounds(v, pos + 6, line_end);
            assert(line.skip(6) == v@.subrange(pos + 6, line_end as int));
            event = Some(string_from_chars(&v[a..b]));
        } else if has_prefix_at(v, pos, line_end, &data_p) {
            if data.len() > 0 {
                data.push('\n');
            }
            let a = skip_ws_forward(v, pos + 5, line_end);
            assert(line.skip(5) == v@.subrange(pos + 5, line_end as int));
            push_range(&mut data, v, a, line_end);
        }
        proof {
            let st2 = (opt_view(event), data@);
            assert(st2 == apply_line(st, line));
            let ls = lines_spec(rest);
            assert(ls[0] == line);
            if q < hi {
                assert(ls.skip(1) == lines_spec(v@.subrange(q + 1, hi as int)));
            } else {
                assert(ls.skip(1) == lines_spec(v@.subrange(hi as int, hi as int)));
            }
        }
        pos = if q < hi {
            q + 1
        } else {
            hi
        };
    }
    assert(v@.subrange(pos as int, hi as int).len() == 0);
    if data.len() == 0 && event.is_none() {
        None
    } else {
        Some(SseEvent { event, data: string_from_chars(data.as_slice()) })
    }
}

/// Decode one SSE frame (the text between two blank lines).
pub fn parse_sse_frame(frame: &str) -> (r: Option<SseEvent>)
    ensures
        match r {
            Some(e) => parse_frame_spec(frame@) == Some(e@),
            None => parse_frame_spec(frame@) is None,
        },
{
    let v = chars_of(frame);
    assert(v@.subrange(0, v@.len() as int) == v@);
    parse_frame_chars(v.as_slice(), 0, v.len())
}

impl Default for SseBuffer {
    fn default() -> (r: Self)
        ensures
            r@ == Seq::<char>::empty(),
    {
        SseBuffer { accum: String::new() }
    }
}

impl SseBuffer {
    /// Append `chunk` and return the events of every frame it completes;
    /// the incomplete tail stays buffered for the next call.
    pub fn push(&mut self, chunk: &str) -> (out: Vec<SseEvent>)
        ensures
            out@.map_values(|e: SseEvent| e@) == push_spec(old(self)@, chunk@).0,
            final(self)@ == push_spec(old(self)@, chunk@).1,
    {
        let mut buf = chars_of(self.accum.as_str());
        let mut more = chars_of(chunk);
        buf.append(&mut more);
        let ghost total = buf@;
        let mut out: Vec<SseEvent> = Vec::new();
        let mut start: usize = 0;
        let mut i: usize = 0;
        assert(total.skip(0) == total);
        while i < buf.len() && i < buf.len() - 1
            invariant
                start <= i <= buf@.len(),
                buf@ == total,
                find_blank_from(total.skip(start as int), 0) == find_blank_from(
                    total.skip(start as int),
                    (i - start) as int,
                ),
                events_of(split_frames(total).0) == out@.map_values(|e: SseEvent| e@) + events_of(
                    split_frames(total.skip(start as int)).0,
                ),
                split_frames(total).1 == split_frames(total.skip(start as int)).1,
            decreases buf@.len() - i,
        {
            let ghost rest = total.skip(start as int);
            let sl = sep_len(&buf, i);
            proof {
                lemma_sep_at_skip(total, start as int, (i - start) as int);
            }
            if sl > 0 {
                let ghost p = (i - start) as int;
                proof {
                    assert(sep_at(rest, p) == sl);
                    assert(find_blank_from(rest, p) == Some(p));
                    assert(rest.take(p) == total.subrange(start as int, i as int));
                    assert(rest.skip(p + sl) == total.skip(i + sl));
                    let r = split_frames(total.skip(i + sl));
                    assert(split_frames(rest) == (seq![rest.take(p)] + r.0, r.1));
                    let fr = seq![rest.take(p)] + r.0;
                    assert(fr[0] == rest.take(p));
                    assert(fr.skip(1) == r.0);
                }
                let ev = parse_frame_chars(buf.as_slice(), start, i);
                let ghost before = out@.map_values(|e: SseEvent| e@);
                match ev {
                    Some(e) => {
                        out.push(e);
                        assert(out@.map_values(|e: SseEvent| e@) == before.push(e@));
                    },
                    None => {},
                }
                proof {
                    let r = split_frames(total.skip(i + sl));
                    let fr = seq![rest.take(p)] + r.0;
                    let after = out@.map_values(|e: SseEvent| e@);
                    match parse_frame_spec(fr[0]) {
                        Some(x) => {
                            assert(events_of(fr) == seq![x] + events_of(r.0));
                            assert(before + events_of(fr) == after + events_of(r.0));
                        },
                        None => {
                            assert(events_of(fr) == events_of(r.0));
                        },
                    }
                    assert(total.skip(i + sl).skip(0) == total.skip(i + sl));
                }
                start = i + sl;
                i = i + sl;
            } else {
                proof {
                    assert(sep_at(rest, (i - start) as int) == 0);
                    assert((i - start) + 1 < rest.len());
                    assert(find_blank_from(rest, (i - start) as int) == find_blank_from(rest, (i - start) + 1));
                }
                i = i + 1;
            }
        }
        proof {
            let rest = total.skip(start as int);
            assert(find_blank_from(rest, (i - start) as int) is None);
            assert(split_frames(rest) == (Seq::<Seq<char>>::empty(), rest));
            assert(events_of(Seq::<Seq<char>>::empty()) == Seq::<SseEventView>::empty());
            assert(out@.map_values(|e: SseEvent| e@) + Seq::<SseEventView>::empty() == out@.map_values(
                |e: SseEvent| e@,
            ));
            assert(total.subrange(start as int, total.len() as int) == rest);
        }
        self.accum = string_from_chars(&buf[start..buf.len()]);
        out
    }
}


/// A separator found in `x` is found at the same place, with the same
/// length, once more text follows.
proof fn lemma_sep_extend(x: Seq<char>, y: Seq<char>, p: int)
    requires
        0 <= p,
        sep_at(x, p) > 0,
    ensures
        sep_at(x + y, p) == sep_at(x, p),
{
    let z = x + y;
    assert(z[p] == x[p] && z[p + 1] == x[p + 1]);
    if p + 2 < x.len() {
        assert(z[p + 2] == x[p + 2]);
    }
    if p + 3 < x.len() {
        assert(z[p + 3] == x[p + 3]);
    }
}

/// No earlier separator appears when text is appended after a complete
/// one.
proof fn lemma_no_sep_extend(x: Seq<char>, y: Seq<char>, j: int, p: int)
    requires
        0 <= j < p,
        sep_at(x, j) == 0,
        sep_at(x, p) > 0,
        p + sep_at(x, p) <= x.len(),
    ensures
        sep_at(x + y, j) == 0,
{
    let z = x + y;
    assert(z[j] == x[j] && z[j + 1] == x[j + 1]);
    if j + 2 < x.len() {
        assert(z[j + 2] == x[j + 2]);
    }
    if j + 3 < x.len() {
        assert(z[j + 3] == x[j + 3]);
    }
}

proof fn lemma_find_blank_extend(x: Seq<char>, y: Seq<char>, i: int)
    requires
        0 <= i,
        find_blank_from(x, i) is Some,
    ensures
        find_blank_from(x + y, i) == find_blank_from(x, i),
    decreases x.len() - i,
{
    lemma_find_blank_from(x, i);
    let p = find_blank_from(x, i)->0;
    if i < p {
        assert(sep_at(x, i) == 0);
        lemma_no_sep_extend(x, y, i, p);
        lemma_find_blank_extend(x, y, i + 1);
    } else {
        lemma_sep_extend(x, y, p);
    }
}

proof fn lemma_split_frames_concat(x: Seq<char>, y: Seq<char>)
    ensures
        split_frames(x + y) == ({
            let s2 = split_frames(split_frames(x).1 + y);
            (split_frames(x).0 + s2.0, s2.1)
        }),
    decreases x.len(),
{
    lemma_find_blank_from(x, 0);
    match find_blank_from(x, 0) {
        Some(p) => {
            lemma_find_blank_extend(x, y, 0);
            let z = x + y;
            let l = sep_at(x, p);
            lemma_sep_extend(x, y, p);
            let x2 = x.skip(p + l);
            assert(z.take(p) == x.take(p));
            assert(z.skip(p + l) == x2 + y);
            lemma_split_frames_concat(x2, y);
            let s2 = split_frames(split_frames(x2).1 + y);
            assert(split_frames(x) == (seq![x.take(p)] + split_frames(x2).0, split_frames(x2).1));
            assert(split_frames(z) == (seq![x.take(p)] + split_frames(x2 + y).0, split_frames(
                x2 + y,
            ).1));
            assert(seq![x.take(p)] + (split_frames(x2).0 + s2.0) == (seq![x.take(p)] + split_frames(
                x2,
            ).0) + s2.0);
        },
        None => {
            assert(split_frames(x) == (Seq::<Seq<char>>::empty(), x));
            assert(Seq::<Seq<char>>::empty() + split_frames(x + y).0 == split_frames(x + y).0);
        },
    }
}

proof fn lemma_events_of_concat(a: Seq<Seq<char>>, b: Seq<Seq<char>>)
    ensures
        events_of(a + b) == events_of(a) + events_of(b),
    decreases a.len(),
{
    if a.len() == 0 {
        assert(a + b == b);
        assert(Seq::<SseEventView>::empty() + events_of(b) == events_of(b));
    } else {
        lemma_events_of_concat(a.skip(1), b);
        assert((a + b)[0] == a[0]);
        assert((a + b).skip(1) == a.skip(1) + b);
        match parse_frame_spec(a[0]) {
            Some(e) => {
                assert(seq![e] + (events_of(a.skip(1)) + events_of(b)) == (seq![e] + events_of(
                    a.skip(1),
                )) + events_of(b));
            },
            None => {},
        }
    }
}

/// Framing does not depend on how the stream was cut: pushing `c1` and
/// then `c2` yields the events of pushing `c1 + c2` at once, in the same
/// order, and leaves the same tail in the buffer.
pub proof fn law_push_split_invariant(accum: Seq<char>, c1: Seq<char>, c2: Seq<char>)
    ensures
        push_spec(accum, c1 + c2) == ({
            let first = push_spec(accum, c1);
            let second = push_spec(first.1, c2);
            (first.0 + second.0, second.1)
        }),
{
    let x = accum + c1;
    assert(accum + (c1 + c2) == x + c2);
    lemma_split_frames_concat(x, c2);
    let s2 = split_frames(split_frames(x).1 + c2);
    lemma_events_of_concat(split_frames(x).0, s2.0);
}

/// The events and tail left by pushing `chunks` one after another onto a
/// buffer holding `accum`.
pub open spec fn push_all(accum: Seq<char>, chunks: Seq<Seq<char>>) -> (Seq<SseEventView>, Seq<char>)
    decreases chunks.len(),
{
    if chunks.len() == 0 {
        (Seq::empty(), accum)
    } else {
        let first = push_spec(accum, chunks[0]);
        let rest = push_all(first.1, chunks.skip(1));
        (first.0 + rest.0, rest.1)
    }
}

/// The concatenation of a list of chunks.
pub open spec fn concat_chunks(chunks: Seq<Seq<char>>) -> Seq<char>
    decreases chunks.len(),
{
    if chunks.len() == 0 {
        Seq::empty()
    } else {
        chunks[0] + concat_chunks(chunks.skip(1))
    }
}

/// Feeding a stream in any fragmentation gives the same events, and the
/// same buffered tail, as feeding it whole.
pub proof fn law_fragmentation_independent(accum: Seq<char>, chunks: Seq<Seq<char>>)
    requires
        find_blank_from(accum, 0) is None,
    ensures
        push_all(accum, chunks) == push_spec(accum, concat_chunks(chunks)),
    decreases chunks.len(),
{
    if chunks.len() == 0 {
        assert(accum + Seq::<char>::empty() == accum);
        lemma_find_blank_from(accum, 0);
        lemma_split_empty_tail(accum);
    } else {
        let first = push_spec(accum, chunks[0]);
        lemma_tail_has_no_blank(accum + chunks[0]);
        law_fragmentation_independent(first.1, chunks.skip(1));
        law_push_split_invariant(accum, chunks[0], concat_chunks(chunks.skip(1)));
    }
}

/// The tail a buffer keeps never holds a complete frame separator.
pub proof fn lemma_tail_has_no_blank(s: Seq<char>)
    ensures
        find_blank_from(split_frames(s).1, 0) is None,
    decreases s.len(),
{
    lemma_find_blank_from(s, 0);
    match find_blank_from(s, 0) {
        Some(p) => {
            lemma_tail_has_no_blank(s.skip(p + sep_at(s, p)));
        },
        None => {},
    }
}

proof fn lemma_split_empty_tail(s: Seq<char>)
    requires
        find_blank_from(s, 0) is None,
    ensures
        push_spec(s, Seq::empty()) == (Seq::<SseEventView>::empty(), s),
{
    assert(s + Seq::<char>::empty() == s);
    assert(events_of(Seq::<Seq<char>>::empty()) == Seq::<SseEventView>::empty());
}

} // verus!
