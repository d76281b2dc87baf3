//! The Ollama chat API, as the library speaks it: the request body, the
//! newline-delimited stream split into lines, and each decoded line
//! turned into chat chunks.

use vstd::prelude::*;
use vstd::string::StringExecFns;
use crate::json::{Json, JsonV, int_number, items_view, jarr, jint, jobj, jstr, json_get, obj_find};
use crate::llm::{ChatChunk, ChatChunkV, Message, MessageV, Role, UsageSummary};
use crate::llm_tools::msgs_view;
use crate::sse::find_nl_from;
use crate::text::{chars_of, opt_view, string_from_chars, trim_bounds, trim_spec};

verus! {

pub open spec fn role_name(r: Role) -> Seq<char> {
    match r {
        Role::System => "system"@,
        Role::User => "user"@,
        Role::Assistant => "assistant"@,
        Role::Tool => "tool"@,
    }
}

pub open spec fn ollama_message(role: Role, content: Seq<char>) -> JsonV {
    JsonV::Object(seq![("content"@, JsonV::Str(content)), ("role"@, JsonV::Str(role_name(role)))])
}

/// The chat request body, without `options.temperature` (added by the
/// caller, which holds it as a float): the system prompt, when given,
/// goes first as a `system` message; the token cap is 2048 unless given.
pub open spec fn chat_body_spec(model: Seq<char>, max_tokens: Option<u32>, sys: Option<Seq<char>>, msgs: Seq<MessageV>) -> JsonV {
    JsonV::Object(
        seq![
            (
                "messages"@,
                JsonV::Array(
                    (match sys {
                        Some(s) => seq![ollama_message(Role::System, s)],
                        None => Seq::empty(),
                    }) + msgs.map_values(|m: MessageV| ollama_message(m.role, m.content)),
                ),
            ),
            ("model"@, JsonV::Str(model)),
            (
                "options"@,
                JsonV::Object(
                    seq![
                        (
                            "num_predict"@,
                            JsonV::Number(
                                int_number(
                                    match max_tokens {
                                        Some(n) => n as int,
                                        None => 2048,
                                    },
                                ),
                            ),
                        ),
                    ],
                ),
            ),
            ("stream"@, JsonV::Bool(true)),
        ],
    )
}

/// Every message of an Ollama chat body is sent under the wire name of its
/// own role, with its own text, after the system prompt when one is
/// given: a user turn as `user`, the model's earlier replies as
/// `assistant` (never `user`), tool results as `tool`, system text as
/// `system`.
pub proof fn law_ollama_roles(model: Seq<char>, max_tokens: Option<u32>, sys: Option<Seq<char>>, msgs: Seq<MessageV>)
    ensures
        ({
            let arr = json_get(chat_body_spec(model, max_tokens, sys, msgs), "messages"@)->0->Array_0;
            let off: int = if sys is Some { 1 } else { 0 };
            &&& arr.len() == off + msgs.len()
            &&& (sys matches Some(s) ==> json_get(arr[0], "role"@) == Some(JsonV::Str("system"@))
                && json_get(arr[0], "content"@) == Some(JsonV::Str(s)))
            &&& forall|i: int|
                0 <= i < msgs.len() ==> {
                    let m = #[trigger] msgs[i];
                    let role = json_get(arr[off + i], "role"@);
                    &&& json_get(arr[off + i], "content"@) == Some(JsonV::Str(m.content))
                    &&& (m.role == Role::User ==> role == Some(JsonV::Str("user"@)))
                    &&& (m.role == Role::Assistant ==> role == Some(JsonV::Str("assistant"@)) && role != Some(
                        JsonV::Str("user"@),
                    ))
                    &&& (m.role == Role::Tool ==> role == Some(JsonV::Str("tool"@)) && role != Some(
                        JsonV::Str("user"@),
                    ))
                    &&& (m.role == Role::System ==> role == Some(JsonV::Str("system"@)))
                }
        }),
{
    reveal_strlit("user");
    reveal_strlit("assistant");
    reveal_strlit("tool");
    reveal_strlit("system");
    reveal_strlit("messages");
    reveal_strlit("role");
    reveal_strlit("content");
    let body = chat_body_spec(model, max_tokens, sys, msgs);
    let es = body->Object_0;
    assert(obj_find(es, "messages"@, 0) == Some(0int));
    let arr = json_get(body, "messages"@)->0->Array_0;
    let off: int = if sys is Some { 1 } else { 0 };
    if sys is Some {
        assert(arr[0] == ollama_message(Role::System, sys->0));
        lemma_ollama_message_fields(Role::System, sys->0);
    }
    assert forall|i: int| 0 <= i < msgs.len() implies {
        let m = #[trigger] msgs[i];
        let role = json_get(arr[off + i], "role"@);
        &&& json_get(arr[off + i], "content"@) == Some(JsonV::Str(m.content))
        &&& (m.role == Role::User ==> role == Some(JsonV::Str("user"@)))
        &&& (m.role == Role::Assistant ==> role == Some(JsonV::Str("assistant"@)) && role != Some(
            JsonV::Str("user"@),
        ))
        &&& (m.role == Role::Tool ==> role == Some(JsonV::Str("tool"@)) && role != Some(JsonV::Str("user"@)))
        &&& (m.role == Role::System ==> role == Some(JsonV::Str("system"@)))
    } by {
        assert(arr[off + i] == ollama_message(msgs[i].role, msgs[i].content));
        lemma_ollama_message_fields(msgs[i].role, msgs[i].content);
        assert("assistant"@[0] != "user"@[0]);
        assert("tool"@[0] != "user"@[0]);
    }
}

proof fn lemma_ollama_message_fields(r: Role, c: Seq<char>)
    ensures
        json_get(ollama_message(r, c), "role"@) == Some(JsonV::Str(role_name(r))),
        json_get(ollama_message(r, c), "content"@) == Some(JsonV::Str(c)),
{
    reveal_strlit("role");
    reveal_strlit("content");
    let oes = ollama_message(r, c)->Object_0;
    assert(obj_find(oes, "content"@, 0) == Some(0int));
    assert(oes[0].0[0] != "role"@[0]);
    assert(obj_find(oes, "role"@, 1) == Some(1int));
    assert(obj_find(oes, "role"@, 0) == Some(1int));
}

fn role_str(r: Role) -> (s: &'static str)
    ensures
        s@ == role_name(r),
{
    match r {
        Role::System => "system",
        Role::User => "user",
        Role::Assistant => "assistant",
        Role::Tool => "tool",
    }
}

fn message_json(role: Role, content: &str) -> (j: Json)
    ensures
        j@ == ollama_message(role, content@),
{
    let j = jobj(vec![("content".to_owned(), jstr(content)), ("role".to_owned(), jstr(role_str(role)))]);
    assert(j@->Object_0 =~= ollama_message(role, content@)->Object_0);
    j
}

/// The body of a streaming `/api/chat` request.
pub fn chat_body(model: &str, max_tokens: Option<u32>, system: &Option<String>, messages: &Vec<Message>) -> (j: Json)
    ensures
        j@ == chat_body_spec(model@, max_tokens, opt_view(*system), msgs_view(messages@)),
{
    let mut out: Vec<Json> = Vec::new();
    match system {
        Some(s) => {
            out.push(message_json(Role::System, s.as_str()));
        },
        None => {},
    }
    let ghost head = items_view(out@);
    let ghost mv = msgs_view(messages@);
    let mut i: usize = 0;
    while i < messages.len()
        invariant
            i <= messages@.len(),
            mv == msgs_view(messages@),
            items_view(out@) =~= head + mv.take(i as int).map_values(
                |m: MessageV| ollama_message(m.role, m.content),
            ),
        decreases messages@.len() - i,
    {
        let m = &messages[i];
        let x = message_json(m.role, m.content.as_str());
        let ghost before = out@;
        out.push(x);
        assert(mv.take(i + 1).map_values(|m: MessageV| ollama_message(m.role, m.content)) =~= mv.take(
            i as int,
        ).map_values(|m: MessageV| ollama_message(m.role, m.content)).push(
            ollama_message(mv[i as int].role, mv[i as int].content),
        ));
        assert(items_view(out@) =~= items_view(before).push(x@));
        i = i + 1;
    }
    assert(mv.take(mv.len() as int) =~= mv);
    let n: u32 = match max_tokens {
        Some(n) => n,
        None => 2048,
    };
    let options = jobj(vec![("num_predict".to_owned(), jint(n as i64))]);
    let ghost ov = options@;
    let msgs = jarr(out);
    let j = jobj(vec![
        ("messages".to_owned(), msgs),
        ("model".to_owned(), jstr(model)),
        ("options".to_owned(), options),
        ("stream".to_owned(), Json::Bool(true)),
    ]);
    proof {
        let target = chat_body_spec(model@, max_tokens, opt_view(*system), mv);
        assert(ov->Object_0 =~= target->Object_0[2].1->Object_0);
        assert(j@->Object_0[0].1->Array_0 =~= target->Object_0[0].1->Array_0);
        assert(j@->Object_0 =~= target->Object_0);
    }
    j
}

/// The complete lines of `s` (each up to a `\n`) and the tail after the
/// last one.
pub open spec fn split_lines(s: Seq<char>) -> (Seq<Seq<char>>, Seq<char>)
    decreases s.len(),
{
    match find_nl_from(s, 0) {
        Some(p) => if 0 <= p < s.len() {
            let r = split_lines(s.skip(p + 1));
            (seq![s.take(p)] + r.0, r.1)
        } else {
            (Seq::empty(), s)
        },
        None => (Seq::empty(), s),
    }
}

/// The lines, trimmed, without the blank ones.
pub open spec fn kept_lines(ls: Seq<Seq<char>>) -> Seq<Seq<char>>
    decreases ls.len(),
{
    if ls.len() == 0 {
        Seq::empty()
    } else {
        let t = trim_spec(ls[0]);
        if t.len() == 0 {
            kept_lines(ls.skip(1))
        } else {
            seq![t] + kept_lines(ls.skip(1))
        }
    }
}

/// The lines a chunk completes, and the new tail.
pub open spec fn ndjson_push_spec(accum: Seq<char>, chunk: Seq<char>) -> (Seq<Seq<char>>, Seq<char>) {
    let r = split_lines(accum + chunk);
    (kept_lines(r.0), r.1)
}

/// Accumulates a newline-delimited stream; the incomplete last line
/// stays buffered.
pub struct NdjsonBuffer {
    accum: String,
}

impl View for NdjsonBuffer {
    type V = Seq<char>;

    closed spec fn view(&self) -> Seq<char> {
        self.accum@
    }
}

proof fn lemma_find_nl_skip_to(s: Seq<char>, i: int, k: int)
    requires
        0 <= i <= k <= s.len(),
        forall|j: int| i <= j < k ==> #[trigger] s[j] != '\n',
    ensures
        find_nl_from(s, i) == find_nl_from(s, k),
    decreases k - i,
{
    if i < k {
        lemma_find_nl_skip_to(s, i + 1, k);
    }
}

proof fn lemma_find_nl_shift(s: Seq<char>, start: int, i: int)
    requires
        0 <= start <= i <= s.len(),
    ensures
        find_nl_from(s.skip(start), i - start) == match find_nl_from(s, i) {
            Some(p) => Some(p - start),
            None => None,
        },
    decreases s.len() - i,
{
    if i < s.len() && s[i] != '\n' {
        lemma_find_nl_shift(s, start, i + 1);
    }
}

impl NdjsonBuffer {
    pub fn new() -> (b: NdjsonBuffer)
        ensures
            b@.len() == 0,
    {
        NdjsonBuffer { accum: String::new() }
    }

    /// Append `chunk`; return every line it completes, trimmed, blank
    /// lines skipped.
    pub fn push(&mut self, chunk: &str) -> (lines: Vec<String>)
        ensures
            lines@.map_values(|l: String| l@) == ndjson_push_spec(old(self)@, chunk@).0,
            final(self)@ == ndjson_push_spec(old(self)@, chunk@).1,
    {
        let mut buf = chars_of(self.accum.as_str());
        let mut more = chars_of(chunk);
        buf.append(&mut more);
        let ghost total = buf@;
        let mut out: Vec<String> = Vec::new();
        let mut start: usize = 0;
        let mut i: usize = 0;
        assert(total.skip(0) =~= total);
        while i < buf.len()
            invariant
                start <= i <= buf@.len(),
                buf@ == total,
                forall|j: int| start <= j < i ==> #[trigger] total[j] != '\n',
                kept_lines(split_lines(total).0) == out@.map_values(|l: String| l@) + kept_lines(
                    split_lines(total.skip(start as int)).0,
                ),
                split_lines(total).1 == split_lines(total.skip(start as int)).1,
            decreases buf@.len() - i,
        {
            if buf[i] == '\n' {
                let ghost rest = total.skip(start as int);
                let ghost p = (i - start) as int;
                proof {
                    lemma_find_nl_skip_to(total, start as int, i as int);
                    lemma_find_nl_shift(total, start as int, start as int);
                    assert(find_nl_from(total, i as int) == Some(i as int));
                    assert(rest.take(p) =~= total.subrange(start as int, i as int));
                    assert(rest.skip(p + 1) =~= total.skip(i + 1));
                    let r = split_lines(total.skip(i + 1));
                    assert(split_lines(rest) == (seq![rest.take(p)] + r.0, r.1));
                    let ls = seq![rest.take(p)] + r.0;
                    assert(ls[0] == rest.take(p));
                    assert(ls.skip(1) =~= r.0);
                }
                let (a, b) = trim_bounds(buf.as_slice(), start, i);
                let ghost before = out@.map_values(|l: String| l@);
                if a < b {
                    let line = string_from_chars(&buf[a..b]);
                    out.push(line);
                    assert(out@.map_values(|l: String| l@) =~= before.push(line@));
                }
                proof {
                    let r = split_lines(total.skip(i + 1));
                    let ls = seq![rest.take(p)] + r.0;
                    let t = trim_spec(ls[0]);
                    assert(t =~= total.subrange(a as int, b as int));
                    if t.len() == 0 {
                        assert(kept_lines(ls) == kept_lines(r.0));
                    } else {
                        assert(kept_lines(ls) == seq![t] + kept_lines(r.0));
                        assert(before + (seq![t] + kept_lines(r.0)) =~= before.push(t) + kept_lines(r.0));
                    }
                    assert(total.skip(i + 1).skip(0) =~= total.skip(i + 1));
                }
                start = i + 1;
                i = i + 1;
            } else {
                i = i + 1;
            }
        }
        proof {
            let rest = total.skip(start as int);
            lemma_find_nl_skip_to(total, start as int, total.len() as int);
            lemma_find_nl_shift(total, start as int, start as int);
            assert(find_nl_from(rest, 0) is None);
            assert(split_lines(rest) == (Seq::<Seq<char>>::empty(), rest));
            assert(out@.map_values(|l: String| l@) + kept_lines(Seq::<Seq<char>>::empty()) =~= out@.map_values(
                |l: String| l@,
            ));
            assert(total.subrange(start as int, total.len() as int) =~= rest);
        }
        self.accum = string_from_chars(&buf[start..buf.len()]);
        out
    }
}

/// One decoded stream line: the message piece, whether the reply is
/// done, and the token counts reported with the last line.
#[derive(Debug)]
pub struct OllamaChatResponse {
    pub message_content: Option<String>,
    pub done: bool,
    pub prompt_eval_count: Option<u32>,
    pub eval_count: Option<u32>,
}

/// The chunks one line yields: its text when non-empty, then the end of
/// the reply (with the two counts) when it is the last line.
pub open spec fn line_chunks_spec(r: OllamaChatResponse) -> Seq<ChatChunkV> {
    (match r.message_content {
        Some(c) => if c@.len() > 0 {
            seq![ChatChunkV::Text(c@)]
        } else {
            Seq::empty()
        },
        None => Seq::empty(),
    }) + (if r.done {
        seq![
            ChatChunkV::End(
                Some(
                    UsageSummary {
                        input_tokens: r.prompt_eval_count,
                        output_tokens: r.eval_count,
                        cache_read_input_tokens: None,
                        cache_creation_input_tokens: None,
                    },
                ),
            ),
        ]
    } else {
        Seq::empty()
    })
}

pub fn line_chunks(r: OllamaChatResponse) -> (out: Vec<ChatChunk>)
    ensures
        out@.map_values(|c: ChatChunk| c@) == line_chunks_spec(r),
{
    let ghost rv = r;
    let mut out: Vec<ChatChunk> = Vec::new();
    let done = r.done;
    let usage = UsageSummary {
        input_tokens: r.prompt_eval_count,
        output_tokens: r.eval_count,
        cache_read_input_tokens: None,
        cache_creation_input_tokens: None,
    };
    match r.message_content {
        Some(c) => {
            let v = chars_of(c.as_str());
            if v.len() > 0 {
                out.push(ChatChunk::Text(c));
            }
        },
        None => {},
    }
    let ghost first = out@.map_values(|c: ChatChunk| c@);
    if done {
        out.push(ChatChunk::End { usage: Some(usage) });
        assert(out@.map_values(|c: ChatChunk| c@) =~= first.push(ChatChunkV::End(Some(usage))));
    }
    assert(out@.map_values(|c: ChatChunk| c@) =~= line_chunks_spec(rv));
    out
}

/// The error for a line that is not a chat response.
pub fn line_error(line: &str, reason: &str) -> (e: String)
    ensures
        e@ == "ollama decode `"@ + line@ + "`: "@ + reason@,
{
    let mut m = "ollama decode `".to_owned();
    m.append(line);
    m.append("`: ");
    m.append(reason);
    m
}

proof fn lemma_find_nl_range(s: Seq<char>, i: int)
    requires
        0 <= i,
    ensures
        find_nl_from(s, i) matches Some(p) ==> i <= p < s.len() && s[p] == '\n',
    decreases s.len() - i,
{
    if i < s.len() && s[i] != '\n' {
        lemma_find_nl_range(s, i + 1);
    }
}

proof fn lemma_find_nl_extend(x: Seq<char>, y: Seq<char>, i: int)
    requires
        0 <= i,
        find_nl_from(x, i) is Some,
    ensures
        find_nl_from(x + y, i) == find_nl_from(x, i),
    decreases x.len() - i,
{
    let z = x + y;
    assert(i < x.len());
    assert(z[i] == x[i]);
    if x[i] != '\n' {
        lemma_find_nl_extend(x, y, i + 1);
    }
}

proof fn lemma_split_lines_concat(x: Seq<char>, y: Seq<char>)
    ensures
        split_lines(x + y) == ({
            let s2 = split_lines(split_lines(x).1 + y);
            (split_lines(x).0 + s2.0, s2.1)
        }),
    decreases x.len(),
{
    lemma_find_nl_range(x, 0);
    match find_nl_from(x, 0) {
        Some(p) => {
            lemma_find_nl_extend(x, y, 0);
            let z = x + y;
            let x2 = x.skip(p + 1);
            assert(z.take(p) =~= x.take(p));
            assert(z.skip(p + 1) =~= x2 + y);
            lemma_split_lines_concat(x2, y);
            let s2 = split_lines(split_lines(x2).1 + y);
            assert(split_lines(x) == (seq![x.take(p)] + split_lines(x2).0, split_lines(x2).1));
            assert(split_lines(z) == (seq![x.take(p)] + split_lines(x2 + y).0, split_lines(x2 + y).1));
            assert(seq![x.take(p)] + (split_lines(x2).0 + s2.0) =~= (seq![x.take(p)] + split_lines(x2).0) + s2.0);
        },
        None => {
            assert(split_lines(x) == (Seq::<Seq<char>>::empty(), x));
            assert(Seq::<Seq<char>>::empty() + split_lines(x + y).0 =~= split_lines(x + y).0);
        },
    }
}

proof fn lemma_kept_lines_concat(a: Seq<Seq<char>>, b: Seq<Seq<char>>)
    ensures
        kept_lines(a + b) == kept_lines(a) + kept_lines(b),
    decreases a.len(),
{
    if a.len() == 0 {
        assert(a + b =~= b);
        assert(Seq::<Seq<char>>::empty() + kept_lines(b) =~= kept_lines(b));
    } else {
        lemma_kept_lines_concat(a.skip(1), b);
        assert((a + b)[0] == a[0]);
        assert((a + b).skip(1) =~= a.skip(1) + b);
        let t = trim_spec(a[0]);
        if t.len() > 0 {
            assert(seq![t] + (kept_lines(a.skip(1)) + kept_lines(b)) =~= (seq![t] + kept_lines(a.skip(1)))
                + kept_lines(b));
        }
    }
}

/// Line splitting does not depend on how the stream was cut: pushing
/// `c1` then `c2` yields the lines of pushing `c1 + c2` at once, in the
/// same order, and leaves the same tail.
pub proof fn law_ndjson_push_split_invariant(accum: Seq<char>, c1: Seq<char>, c2: Seq<char>)
    ensures
        ndjson_push_spec(accum, c1 + c2) == ({
            let first = ndjson_push_spec(accum, c1);
            let second = ndjson_push_spec(first.1, c2);
            (first.0 + second.0, second.1)
        }),
{
    let x = accum + c1;
    assert(accum + (c1 + c2) =~= x + c2);
    lemma_split_lines_concat(x, c2);
    let s2 = split_lines(split_lines(x).1 + c2);
    lemma_kept_lines_concat(split_lines(x).0, s2.0);
}

} // verus!
