//! The Anthropic Messages API, as the library speaks it: the request
//! body built from a conversation, and the streamed events turned back
//! into chat chunks (tool-call arguments stitched across frames).

use vstd::prelude::*;
use vstd::string::StringExecFns;
use crate::json::{Json, JsonV, jarr, jint, int_number, items_view, jobj, jstr};
use crate::llm::{ChatChunk, Message, MessageV, Role, ToolCall, ToolCallV, ToolSpec, UsageSummary};
use crate::llm_tools::msgs_view;
use crate::text::{chars_of, is_ws, is_ws_exec, opt_view, str_eq};

verus! {

/// The system prompt once every system message is folded into it (each
/// joined after a blank line), and the other messages in order.
pub open spec fn hoist_spec(ms: Seq<MessageV>, sys: Option<Seq<char>>) -> (Option<Seq<char>>, Seq<MessageV>)
    decreases ms.len(),
{
    if ms.len() == 0 {
        (sys, Seq::empty())
    } else {
        let (s0, f0) = hoist_spec(ms.drop_last(), sys);
        let m = ms.last();
        if m.role == Role::System {
            (
                Some(
                    match s0 {
                        Some(s) => s + "\n\n"@ + m.content,
                        None => m.content,
                    },
                ),
                f0,
            )
        } else {
            (s0, f0.push(m))
        }
    }
}

/// Anthropic takes no system message inside `messages`: fold each one
/// into the top-level system prompt and keep the others.
pub fn hoist_system(messages: &Vec<Message>, system: Option<String>) -> (r: (Option<String>, Vec<Message>))
    ensures
        (opt_view(r.0), msgs_view(r.1@)) == hoist_spec(msgs_view(messages@), opt_view(system)),
{
    let ghost ms = msgs_view(messages@);
    let ghost sys0 = opt_view(system);
    let mut sys = system;
    let mut kept: Vec<Message> = Vec::new();
    let mut i: usize = 0;
    while i < messages.len()
        invariant
            i <= messages@.len(),
            ms == msgs_view(messages@),
            (opt_view(sys), msgs_view(kept@)) == hoist_spec(ms.take(i as int), sys0),
        decreases messages@.len() - i,
    {
        let m = &messages[i];
        assert(ms.take(i + 1).drop_last() =~= ms.take(i as int));
        assert(ms.take(i + 1).last() == m@);
        if m.role == Role::System {
            sys = match sys {
                Some(s) => {
                    let mut t = s;
                    t.append("\n\n");
                    t.append(m.content.as_str());
                    Some(t)
                },
                None => Some(m.content.clone()),
            };
        } else {
            let c = m.duplicate();
            let ghost before = kept@;
            kept.push(c);
            assert(msgs_view(kept@) =~= msgs_view(before).push(c@));
        }
        i = i + 1;
    }
    assert(ms.take(messages@.len() as int) =~= ms);
    (sys, kept)
}

/// The `system` field: a plain string, or (with prompt caching) one text
/// block marked ephemeral; `null` when there is no system prompt.
pub open spec fn system_field_spec(sys: Option<Seq<char>>, cache: bool) -> JsonV {
    match sys {
        Some(s) => if cache {
            JsonV::Array(
                seq![
                    JsonV::Object(
                        seq![
                            ("cache_control"@, JsonV::Object(seq![("type"@, JsonV::Str("ephemeral"@))])),
                            ("text"@, JsonV::Str(s)),
                            ("type"@, JsonV::Str("text"@)),
                        ],
                    ),
                ],
            )
        } else {
            JsonV::Str(s)
        },
        None => JsonV::Null,
    }
}

pub fn system_field(sys: &Option<String>, cache: bool) -> (j: Json)
    ensures
        j@ == system_field_spec(opt_view(*sys), cache),
{
    match sys {
        Some(s) => {
            if cache {
                let control = jobj(vec![("type".to_owned(), jstr("ephemeral"))]);
                assert(control@->Object_0 =~= seq![("type"@, JsonV::Str("ephemeral"@))]);
                let block = jobj(vec![
                    ("cache_control".to_owned(), control),
                    ("text".to_owned(), jstr(s.as_str())),
                    ("type".to_owned(), jstr("text")),
                ]);
                let ghost b = block@;
                let j = jarr(vec![block]);
                assert(j@->Array_0 =~= seq![b]);
                assert(b->Object_0 =~= system_field_spec(opt_view(*sys), cache)->Array_0[0]->Object_0);
                j
            } else {
                jstr(s.as_str())
            }
        },
        None => Json::Null,
    }
}

pub open spec fn tool_use_block(c: ToolCallV) -> JsonV {
    JsonV::Object(
        seq![
            ("id"@, JsonV::Str(c.id)),
            ("input"@, c.input),
            ("name"@, JsonV::Str(c.name)),
            ("type"@, JsonV::Str("tool_use"@)),
        ],
    )
}

pub open spec fn text_blocks(content: Seq<char>) -> Seq<JsonV> {
    if content.len() == 0 {
        Seq::empty()
    } else {
        seq![JsonV::Object(seq![("text"@, JsonV::Str(content)), ("type"@, JsonV::Str("text"@))])]
    }
}

pub open spec fn plain_turn(role: Seq<char>, content: Seq<char>) -> JsonV {
    JsonV::Object(seq![("content"@, JsonV::Str(content)), ("role"@, JsonV::Str(role))])
}

/// One message as Anthropic expects it: an assistant turn that issued
/// tool calls becomes text and `tool_use` blocks; a tool turn becomes a
/// user turn with one `tool_result` block; a stray system message is
/// sent as a user turn.
pub open spec fn block_spec(m: MessageV) -> JsonV {
    match m.role {
        Role::User => plain_turn("user"@, m.content),
        Role::Assistant => if m.tool_calls.len() == 0 {
            plain_turn("assistant"@, m.content)
        } else {
            JsonV::Object(
                seq![
                    (
                        "content"@,
                        JsonV::Array(
                            text_blocks(m.content) + m.tool_calls.map_values(
                                |c: ToolCallV| tool_use_block(c),
                            ),
                        ),
                    ),
                    ("role"@, JsonV::Str("assistant"@)),
                ],
            )
        },
        Role::Tool => JsonV::Object(
            seq![
                (
                    "content"@,
                    JsonV::Array(
                        seq![
                            JsonV::Object(
                                seq![
                                    ("content"@, JsonV::Str(m.content)),
                                    (
                                        "tool_use_id"@,
                                        JsonV::Str(
                                            match m.tool_call_id {
                                                Some(id) => id,
                                                None => Seq::empty(),
                                            },
                                        ),
                                    ),
                                    ("type"@, JsonV::Str("tool_result"@)),
                                ],
                            ),
                        ],
                    ),
                ),
                ("role"@, JsonV::Str("user"@)),
            ],
        ),
        Role::System => plain_turn("user"@, m.content),
    }
}

fn plain_turn_json(role: &str, content: &str) -> (j: Json)
    ensures
        j@ == plain_turn(role@, content@),
{
    let j = jobj(vec![("content".to_owned(), jstr(content)), ("role".to_owned(), jstr(role))]);
    assert(j@->Object_0 =~= plain_turn(role@, content@)->Object_0);
    j
}

fn tool_use_json(c: &ToolCall) -> (j: Json)
    ensures
        j@ == tool_use_block(c@),
{
    let j = jobj(vec![
        ("id".to_owned(), jstr(c.id.as_str())),
        ("input".to_owned(), c.input.deep_clone()),
        ("name".to_owned(), jstr(c.name.as_str())),
        ("type".to_owned(), jstr("tool_use")),
    ]);
    assert(j@->Object_0 =~= tool_use_block(c@)->Object_0);
    j
}

/// Convert one message to the JSON object Anthropic expects.
pub fn message_to_anthropic_block(m: &Message) -> (j: Json)
    ensures
        j@ == block_spec(m@),
{
    match m.role {
        Role::User => plain_turn_json("user", m.content.as_str()),
        Role::System => plain_turn_json("user", m.content.as_str()),
        Role::Assistant => {
            if m.tool_calls.len() == 0 {
                plain_turn_json("assistant", m.content.as_str())
            } else {
                let mut blocks: Vec<Json> = Vec::new();
                let cv = chars_of(m.content.as_str());
                if cv.len() > 0 {
                    let t = jobj(vec![("text".to_owned(), jstr(m.content.as_str())), ("type".to_owned(), jstr("text"))]);
                    assert(t@->Object_0 =~= text_blocks(m.content@)[0]->Object_0);
                    blocks.push(t);
                }
                assert(items_view(blocks@) =~= text_blocks(m.content@));
                let ghost calls = m@.tool_calls;
                let mut i: usize = 0;
                while i < m.tool_calls.len()
                    invariant
                        i <= m.tool_calls@.len(),
                        calls == m@.tool_calls,
                        calls.len() == m.tool_calls@.len(),
                        items_view(blocks@) =~= text_blocks(m.content@) + calls.take(i as int).map_values(
                            |c: ToolCallV| tool_use_block(c),
                        ),
                    decreases m.tool_calls@.len() - i,
                {
                    let b = tool_use_json(&m.tool_calls[i]);
                    let ghost before = blocks@;
                    blocks.push(b);
                    assert(calls[i as int] == m.tool_calls@[i as int]@);
                    assert(calls.take(i + 1).map_values(|c: ToolCallV| tool_use_block(c)) =~= calls.take(
                        i as int,
                    ).map_values(|c: ToolCallV| tool_use_block(c)).push(tool_use_block(calls[i as int])));
                    assert(items_view(blocks@) =~= items_view(before).push(b@));
                    i = i + 1;
                }
                assert(calls.take(calls.len() as int) =~= calls);
                let content = jarr(blocks);
                let j = jobj(vec![("content".to_owned(), content), ("role".to_owned(), jstr("assistant"))]);
                assert(j@->Object_0 =~= block_spec(m@)->Object_0);
                j
            }
        },
        Role::Tool => {
            let id = match &m.tool_call_id {
                Some(id) => id.clone(),
                None => String::new(),
            };
            let r = jobj(vec![
                ("content".to_owned(), jstr(m.content.as_str())),
                ("tool_use_id".to_owned(), jstr(id.as_str())),
                ("type".to_owned(), jstr("tool_result")),
            ]);
            let ghost rv = r@;
            let arr = jarr(vec![r]);
            assert(arr@->Array_0 =~= seq![rv]);
            let j = jobj(vec![("content".to_owned(), arr), ("role".to_owned(), jstr("user"))]);
            assert(rv->Object_0 =~= block_spec(m@)->Object_0[0].1->Array_0[0]->Object_0);
            assert(j@->Object_0 =~= block_spec(m@)->Object_0);
            j
        },
    }
}

pub open spec fn tool_entry(t: ToolSpec) -> JsonV {
    JsonV::Object(
        seq![
            ("description"@, JsonV::Str(t.description@)),
            ("input_schema"@, t.input_schema@),
            ("name"@, JsonV::Str(t.name@)),
        ],
    )
}

/// The request body, without `temperature` (added by the caller, which
/// holds it as a float): the model, the token cap (2048 unless given),
/// streaming on, the converted messages, then `system` when there is one
/// and `tools` when any are offered.
pub open spec fn body_spec(
    model: Seq<char>,
    max_tokens: Option<u32>,
    sys: Option<Seq<char>>,
    cache: bool,
    msgs: Seq<MessageV>,
    tools: Seq<ToolSpec>,
) -> JsonV {
    JsonV::Object(
        seq![
            (
                "max_tokens"@,
                JsonV::Number(
                    int_number(
                        match max_tokens {
                            Some(n) => n as int,
                            None => 2048,
                        },
                    ),
                ),
            ),
            ("messages"@, JsonV::Array(msgs.map_values(|m: MessageV| block_spec(m)))),
            ("model"@, JsonV::Str(model)),
            ("stream"@, JsonV::Bool(true)),
        ] + (if sys is Some {
            seq![("system"@, system_field_spec(sys, cache))]
        } else {
            Seq::empty()
        }) + (if tools.len() > 0 {
            seq![("tools"@, JsonV::Array(tools.map_values(|t: ToolSpec| tool_entry(t))))]
        } else {
            Seq::empty()
        }),
    )
}

fn tool_entry_json(t: &ToolSpec) -> (j: Json)
    ensures
        j@ == tool_entry(*t),
{
    let j = jobj(vec![
        ("description".to_owned(), jstr(t.description.as_str())),
        ("input_schema".to_owned(), t.input_schema.deep_clone()),
        ("name".to_owned(), jstr(t.name.as_str())),
    ]);
    assert(j@->Object_0 =~= tool_entry(*t)->Object_0);
    j
}

/// The body of a streaming Messages request for `messages` (system
/// messages hoisted into `system`).
pub fn request_body(
    model: &str,
    max_tokens: Option<u32>,
    system: Option<String>,
    cache_system: bool,
    messages: &Vec<Message>,
    tools: &Vec<ToolSpec>,
) -> (j: Json)
    ensures
        ({
            let (sys, kept) = hoist_spec(msgs_view(messages@), opt_view(system));
            j@ == body_spec(model@, max_tokens, sys, cache_system, kept, tools@)
        }),
{
    let (sys, kept) = hoist_system(messages, system);
    let mut blocks: Vec<Json> = Vec::new();
    let ghost kv = msgs_view(kept@);
    let mut i: usize = 0;
    while i < kept.len()
        invariant
            i <= kept@.len(),
            kv == msgs_view(kept@),
            items_view(blocks@) =~= kv.take(i as int).map_values(|m: MessageV| block_spec(m)),
        decreases kept@.len() - i,
    {
        let b = message_to_anthropic_block(&kept[i]);
        let ghost before = blocks@;
        blocks.push(b);
        assert(kv.take(i + 1).map_values(|m: MessageV| block_spec(m)) =~= kv.take(i as int).map_values(
            |m: MessageV| block_spec(m),
        ).push(block_spec(kv[i as int])));
        assert(items_view(blocks@) =~= items_view(before).push(b@));
        i = i + 1;
    }
    assert(kv.take(kv.len() as int) =~= kv);
    let n: u32 = match max_tokens {
        Some(n) => n,
        None => 2048,
    };
    let mut entries: Vec<(String, Json)> = vec![
        ("max_tokens".to_owned(), jint(n as i64)),
        ("messages".to_owned(), jarr(blocks)),
        ("model".to_owned(), jstr(model)),
        ("stream".to_owned(), Json::Bool(true)),
    ];
    let ghost first = crate::json::entries_view(entries@);
    if sys.is_some() {
        let f = system_field(&sys, cache_system);
        entries.push(("system".to_owned(), f));
    }
    let ghost second = crate::json::entries_view(entries@);
    if tools.len() > 0 {
        let mut ts: Vec<Json> = Vec::new();
        let mut k: usize = 0;
        while k < tools.len()
            invariant
                k <= tools@.len(),
                items_view(ts@) =~= tools@.take(k as int).map_values(|t: ToolSpec| tool_entry(t)),
            decreases tools@.len() - k,
        {
            let e = tool_entry_json(&tools[k]);
            let ghost before = ts@;
            ts.push(e);
            assert(tools@.take(k + 1).map_values(|t: ToolSpec| tool_entry(t)) =~= tools@.take(
                k as int,
            ).map_values(|t: ToolSpec| tool_entry(t)).push(tool_entry(tools@[k as int])));
            assert(items_view(ts@) =~= items_view(before).push(e@));
            k = k + 1;
        }
        assert(tools@.take(tools@.len() as int) =~= tools@);
        entries.push(("tools".to_owned(), jarr(ts)));
    }
    let j = jobj(entries);
    proof {
        let (sv, kept_v) = hoist_spec(msgs_view(messages@), opt_view(system));
        assert(j@->Object_0 =~= body_spec(model@, max_tokens, sv, cache_system, kept_v, tools@)->Object_0);
    }
    j
}

proof fn lemma_hoist_shape(ms: Seq<MessageV>, sys: Option<Seq<char>>)
    ensures
        hoist_spec(ms, sys).1 == ms.filter(|m: MessageV| m.role != Role::System),
        (forall|i: int| 0 <= i < ms.len() ==> #[trigger] ms[i].role != Role::System) ==> hoist_spec(ms, sys).0
            == sys,
        (exists|i: int| 0 <= i < ms.len() && #[trigger] ms[i].role == Role::System) ==> hoist_spec(ms, sys).0 is Some,
    decreases ms.len(),
{
    if ms.len() > 0 {
        let init = ms.drop_last();
        lemma_hoist_shape(init, sys);
        reveal_with_fuel(Seq::<MessageV>::filter, 1);
        assert forall|i: int| 0 <= i < init.len() implies #[trigger] init[i] == ms[i] by {}
        if exists|i: int| 0 <= i < ms.len() && #[trigger] ms[i].role == Role::System {
            let i = choose|i: int| 0 <= i < ms.len() && #[trigger] ms[i].role == Role::System;
            if i < init.len() {
                assert(init[i].role == Role::System);
            }
        }
    }
}

/// A request body streams, names the model it was given, and carries
/// every non-system message in its original order; system messages go
/// to the top-level `system` field, which holds the given prompt
/// unchanged when the conversation has none.
pub proof fn law_request_body_hoists_system(
    model: Seq<char>,
    max_tokens: Option<u32>,
    system: Option<Seq<char>>,
    cache: bool,
    ms: Seq<MessageV>,
    tools: Seq<ToolSpec>,
)
    ensures
        ({
            let (sys, kept) = hoist_spec(ms, system);
            let fields = body_spec(model, max_tokens, sys, cache, kept, tools)->Object_0;
            &&& fields.contains(("stream"@, JsonV::Bool(true)))
            &&& fields.contains(("model"@, JsonV::Str(model)))
            &&& kept == ms.filter(|m: MessageV| m.role != Role::System)
            &&& fields.contains(
                ("messages"@, JsonV::Array(kept.map_values(|m: MessageV| block_spec(m)))),
            )
            &&& (forall|i: int| 0 <= i < ms.len() ==> #[trigger] ms[i].role != Role::System) ==> sys == system
            &&& (exists|i: int| 0 <= i < ms.len() && #[trigger] ms[i].role == Role::System) ==> (sys is Some
                && fields.contains(("system"@, system_field_spec(sys, cache))))
        }),
{
    lemma_hoist_shape(ms, system);
    let (sys, kept) = hoist_spec(ms, system);
    let fields = body_spec(model, max_tokens, sys, cache, kept, tools)->Object_0;
    assert(fields[3] == ("stream"@, JsonV::Bool(true)));
    assert(fields[2] == ("model"@, JsonV::Str(model)));
    assert(fields[1] == ("messages"@, JsonV::Array(kept.map_values(|m: MessageV| block_spec(m)))));
    if sys is Some {
        assert(fields[4] == ("system"@, system_field_spec(sys, cache)));
    }
}

/// The fields of a streamed event's JSON payload that the decoder reads.
#[derive(Debug)]
pub struct AnthropicEvent {
    pub delta: Option<AnthropicDelta>,
    /// The top-level `usage` (sent with `message_delta`).
    pub usage: Option<UsageSummary>,
    /// `message.usage` (sent with `message_start`).
    pub message_usage: Option<UsageSummary>,
    pub index: Option<u32>,
    pub content_block: Option<ContentBlockMeta>,
}

/// A `content_block_delta` payload: prose, or a fragment of tool input.
#[derive(Debug)]
pub struct AnthropicDelta {
    pub text: Option<String>,
    pub partial_json: Option<String>,
}

/// The block a `content_block_start` opens.
#[derive(Debug)]
pub struct ContentBlockMeta {
    pub kind: Option<String>,
    pub id: Option<String>,
    pub name: Option<String>,
}

impl Default for AnthropicEvent {
    fn default() -> (r: Self)
        ensures
            r.delta is None,
            r.usage is None,
            r.message_usage is None,
            r.index is None,
            r.content_block is None,
    {
        AnthropicEvent { delta: None, usage: None, message_usage: None, index: None, content_block: None }
    }
}

/// A `tool_use` block being streamed: its id and name, and the input
/// JSON received so far.
#[derive(Debug)]
pub struct PartialToolCall {
    pub id: String,
    pub name: String,
    pub json_buf: String,
}

pub struct PartialV {
    pub id: Seq<char>,
    pub name: Seq<char>,
    pub json: Seq<char>,
}

impl View for PartialToolCall {
    type V = PartialV;

    open spec fn view(&self) -> PartialV {
        PartialV { id: self.id@, name: self.name@, json: self.json_buf@ }
    }
}

/// The open `tool_use` blocks, by content-block index, and the token
/// usage reported so far in the message being streamed.
#[derive(Debug)]
pub struct ToolBuffer {
    pub slots: Vec<(u32, PartialToolCall)>,
    pub usage: Option<UsageSummary>,
}

pub open spec fn slots_view(s: Seq<(u32, PartialToolCall)>) -> Seq<(u32, PartialV)> {
    s.map_values(|e: (u32, PartialToolCall)| (e.0, e.1@))
}

impl View for ToolBuffer {
    type V = Seq<(u32, PartialV)>;

    open spec fn view(&self) -> Seq<(u32, PartialV)> {
        slots_view(self.slots@)
    }
}

/// First slot at or after `i` holding block `idx`.
pub open spec fn find_slot(s: Seq<(u32, PartialV)>, idx: u32, i: int) -> Option<int>
    decreases s.len() - i,
{
    if i < 0 || i >= s.len() {
        None
    } else if s[i].0 == idx {
        Some(i)
    } else {
        find_slot(s, idx, i + 1)
    }
}

/// Open block `idx` (replacing one already open under that index).
pub open spec fn slot_insert(s: Seq<(u32, PartialV)>, idx: u32, p: PartialV) -> Seq<(u32, PartialV)> {
    match find_slot(s, idx, 0) {
        Some(k) => s.update(k, (idx, p)),
        None => s.push((idx, p)),
    }
}

/// What one streamed event yields.
#[derive(Debug)]
pub enum Decoded {
    Nothing,
    Chunk(ChatChunk),
    Failed(String),
    /// A finished `tool_use` block whose input text must be parsed as JSON.
    ToolInput { id: String, name: String, json: String },
}

pub enum DecodedV {
    Nothing,
    Chunk(crate::llm::ChatChunkV),
    Failed(Seq<char>),
    ToolInput(Seq<char>, Seq<char>, Seq<char>),
}

impl View for Decoded {
    type V = DecodedV;

    open spec fn view(&self) -> DecodedV {
        match self {
            Decoded::Nothing => DecodedV::Nothing,
            Decoded::Chunk(c) => DecodedV::Chunk(c@),
            Decoded::Failed(e) => DecodedV::Failed(e@),
            Decoded::ToolInput { id, name, json } => DecodedV::ToolInput(id@, name@, json@),
        }
    }
}

pub open spec fn opt_text(o: Option<String>) -> Seq<char> {
    match o {
        Some(s) => s@,
        None => Seq::empty(),
    }
}

/// Every char is whitespace (so the text trims to nothing).
pub open spec fn all_ws(s: Seq<char>) -> bool {
    forall|i: int| 0 <= i < s.len() ==> #[trigger] is_ws(s[i])
}

/// A usage report `b` over an earlier one `a`: each count `b` gives
/// replaces `a`'s (the streamed counts are running totals); the others
/// are kept.
pub open spec fn merge_usage(a: Option<UsageSummary>, b: Option<UsageSummary>) -> Option<UsageSummary> {
    match (a, b) {
        (None, None) => None,
        (Some(x), None) => Some(x),
        (None, Some(y)) => Some(y),
        (Some(x), Some(y)) => Some(
            UsageSummary {
                input_tokens: if y.input_tokens is Some { y.input_tokens } else { x.input_tokens },
                output_tokens: if y.output_tokens is Some { y.output_tokens } else { x.output_tokens },
                cache_read_input_tokens: if y.cache_read_input_tokens is Some {
                    y.cache_read_input_tokens
                } else {
                    x.cache_read_input_tokens
                },
                cache_creation_input_tokens: if y.cache_creation_input_tokens is Some {
                    y.cache_creation_input_tokens
                } else {
                    x.cache_creation_input_tokens
                },
            },
        ),
    }
}

/// The usage known after one event: `message_start` brings the message's
/// usage, `message_delta` updates it, `message_stop` hands it on and
/// clears it; other events leave it.
pub open spec fn usage_step(usage: Option<UsageSummary>, event: Seq<char>, parsed: Result<AnthropicEvent, String>) -> Option<UsageSummary> {
    if event == "message_start"@ {
        match parsed {
            Ok(p) => merge_usage(usage, p.message_usage),
            Err(_) => usage,
        }
    } else if event == "message_delta"@ {
        match parsed {
            Ok(p) => merge_usage(usage, p.usage),
            Err(_) => usage,
        }
    } else if event == "message_stop"@ {
        None
    } else {
        usage
    }
}

fn merge_opt(a: Option<u32>, b: Option<u32>) -> (r: Option<u32>)
    ensures
        r == if b is Some { b } else { a },
{
    match b {
        Some(_) => b,
        None => a,
    }
}

fn merge_usage_exec(a: Option<UsageSummary>, b: Option<UsageSummary>) -> (r: Option<UsageSummary>)
    ensures
        r == merge_usage(a, b),
{
    match (a, b) {
        (None, None) => None,
        (Some(x), None) => Some(x),
        (None, Some(y)) => Some(y),
        (Some(x), Some(y)) => Some(
            UsageSummary {
                input_tokens: merge_opt(x.input_tokens, y.input_tokens),
                output_tokens: merge_opt(x.output_tokens, y.output_tokens),
                cache_read_input_tokens: merge_opt(x.cache_read_input_tokens, y.cache_read_input_tokens),
                cache_creation_input_tokens: merge_opt(x.cache_creation_input_tokens, y.cache_creation_input_tokens),
            },
        ),
    }
}

/// One event's effect: `content_block_start` opens a `tool_use` block;
/// `content_block_delta` yields prose or extends a block's input (an
/// unreadable payload is an error); `content_block_stop` closes a block
/// and yields its call (empty input reads as `{}`); `message_stop` ends
/// the reply with the usage reported during the message (`usage`, see
/// `usage_step`) updated by its own; anything else yields nothing.
pub open spec fn decode_spec(
    buf: Seq<(u32, PartialV)>,
    usage: Option<UsageSummary>,
    event: Seq<char>,
    parsed: Result<AnthropicEvent, String>,
) -> (DecodedV, Seq<(u32, PartialV)>) {
    if event == "content_block_start"@ {
        match parsed {
            Ok(p) => match (p.index, p.content_block) {
                (Some(idx), Some(b)) => if opt_view(b.kind) == Some("tool_use"@) {
                    (
                        DecodedV::Nothing,
                        slot_insert(buf, idx, PartialV { id: opt_text(b.id), name: opt_text(b.name), json: Seq::empty() }),
                    )
                } else {
                    (DecodedV::Nothing, buf)
                },
                _ => (DecodedV::Nothing, buf),
            },
            Err(_) => (DecodedV::Nothing, buf),
        }
    } else if event == "content_block_delta"@ {
        match parsed {
            Err(e) => (DecodedV::Failed("anthropic decode: "@ + e@), buf),
            Ok(p) => match p.delta {
                None => (DecodedV::Nothing, buf),
                Some(d) => match d.text {
                    Some(t) => (DecodedV::Chunk(crate::llm::ChatChunkV::Text(t@)), buf),
                    None => match (d.partial_json, p.index) {
                        (Some(pj), Some(idx)) => match find_slot(buf, idx, 0) {
                            Some(k) => (
                                DecodedV::Nothing,
                                buf.update(
                                    k,
                                    (idx, PartialV { id: buf[k].1.id, name: buf[k].1.name, json: buf[k].1.json + pj@ }),
                                ),
                            ),
                            None => (DecodedV::Nothing, buf),
                        },
                        _ => (DecodedV::Nothing, buf),
                    },
                },
            },
        }
    } else if event == "content_block_stop"@ {
        match parsed {
            Err(_) => (DecodedV::Nothing, buf),
            Ok(p) => match p.index {
                None => (DecodedV::Nothing, buf),
                Some(idx) => match find_slot(buf, idx, 0) {
                    None => (DecodedV::Nothing, buf),
                    Some(k) => {
                        let pt = buf[k].1;
                        if all_ws(pt.json) {
                            (
                                DecodedV::Chunk(
                                    crate::llm::ChatChunkV::ToolCall(
                                        ToolCallV { id: pt.id, name: pt.name, input: JsonV::Object(Seq::empty()) },
                                    ),
                                ),
                                buf.remove(k),
                            )
                        } else {
                            (DecodedV::ToolInput(pt.id, pt.name, pt.json), buf.remove(k))
                        }
                    },
                },
            },
        }
    } else if event == "message_stop"@ {
        (
            DecodedV::Chunk(
                crate::llm::ChatChunkV::End(
                    merge_usage(
                        usage,
                        match parsed {
                            Ok(p) => p.usage,
                            Err(_) => None,
                        },
                    ),
                ),
            ),
            buf,
        )
    } else {
        (DecodedV::Nothing, buf)
    }
}

fn opt_string(o: &Option<String>) -> (r: String)
    ensures
        r@ == opt_text(*o),
{
    match o {
        Some(s) => s.clone(),
        None => String::new(),
    }
}

fn all_ws_exec(s: &str) -> (r: bool)
    ensures
        r == all_ws(s@),
{
    let v = chars_of(s);
    let mut i: usize = 0;
    while i < v.len()
        invariant
            i <= v@.len(),
            v@ == s@,
            forall|k: int| 0 <= k < i ==> #[trigger] is_ws(v@[k]),
        decreases v@.len() - i,
    {
        if !is_ws_exec(v[i]) {
            return false;
        }
        i = i + 1;
    }
    true
}

impl ToolBuffer {
    pub fn new() -> (b: ToolBuffer)
        ensures
            b@.len() == 0,
            b.usage is None,
    {
        let b = ToolBuffer { slots: Vec::new(), usage: None };
        assert(b@ =~= Seq::<(u32, PartialV)>::empty());
        b
    }

    fn find(&self, idx: u32) -> (r: Option<usize>)
        ensures
            match r {
                Some(k) => find_slot(self@, idx, 0) == Some(k as int) && k < self@.len()
                    && self@[k as int].0 == idx,
                None => find_slot(self@, idx, 0) is None,
            },
    {
        let mut k: usize = 0;
        while k < self.slots.len()
            invariant
                k <= self.slots@.len(),
                self@.len() == self.slots@.len(),
                find_slot(self@, idx, 0) == find_slot(self@, idx, k as int),
            decreases self.slots@.len() - k,
        {
            if self.slots[k].0 == idx {
                return Some(k);
            }
            k = k + 1;
        }
        None
    }

    /// Decode one streamed event, given its name and its payload as read
    /// (or why it could not be read).
    pub fn decode_event(&mut self, event: &str, parsed: Result<AnthropicEvent, String>) -> (r: Decoded)
        ensures
            (r@, final(self)@) == decode_spec(old(self)@, old(self).usage, event@, parsed),
            final(self).usage == usage_step(old(self).usage, event@, parsed),
    {
        proof {
            lemma_usage_event_names();
        }
        let ghost p0 = parsed;
        if str_eq(event, "content_block_start") {
            if let Ok(p) = parsed {
                if let (Some(idx), Some(b)) = (p.index, p.content_block) {
                    let is_tool = match &b.kind {
                        Some(k) => str_eq(k.as_str(), "tool_use"),
                        None => false,
                    };
                    if is_tool {
                        let slot = PartialToolCall { id: opt_string(&b.id), name: opt_string(&b.name), json_buf: String::new() };
                        let ghost sv = slot@;
                        match self.find(idx) {
                            Some(k) => {
                                let ghost before = self.slots@;
                                self.slots.set(k, (idx, slot));
                                assert(self@ =~= slots_view(before).update(k as int, (idx, sv)));
                            },
                            None => {
                                let ghost before = self.slots@;
                                self.slots.push((idx, slot));
                                assert(self@ =~= slots_view(before).push((idx, sv)));
                            },
                        }
                    }
                }
            }
            Decoded::Nothing
        } else if str_eq(event, "content_block_delta") {
            match parsed {
                Err(e) => {
                    let mut m = "anthropic decode: ".to_owned();
                    m.append(e.as_str());
                    Decoded::Failed(m)
                },
                Ok(p) => match p.delta {
                    None => Decoded::Nothing,
                    Some(d) => match d.text {
                        Some(t) => Decoded::Chunk(ChatChunk::Text(t)),
                        None => {
                            if let (Some(pj), Some(idx)) = (d.partial_json, p.index) {
                                if let Some(k) = self.find(idx) {
                                    let old_slot = &self.slots[k].1;
                                    let mut buf = old_slot.json_buf.clone();
                                    buf.append(pj.as_str());
                                    let slot = PartialToolCall { id: old_slot.id.clone(), name: old_slot.name.clone(), json_buf: buf };
                                    let ghost sv = slot@;
                                    let ghost before = self.slots@;
                                    self.slots.set(k, (idx, slot));
                                    assert(self@ =~= slots_view(before).update(k as int, (idx, sv)));
                                }
                            }
                            Decoded::Nothing
                        },
                    },
                },
            }
        } else if str_eq(event, "content_block_stop") {
            match parsed {
                Err(_) => Decoded::Nothing,
                Ok(p) => match p.index {
                    None => Decoded::Nothing,
                    Some(idx) => match self.find(idx) {
                        None => Decoded::Nothing,
                        Some(k) => {
                            let ghost before = self.slots@;
                            let (_, pt) = self.slots.remove(k);
                            assert(self@ =~= slots_view(before).remove(k as int));
                            if all_ws_exec(pt.json_buf.as_str()) {
                                let input = crate::json::jobj(Vec::new());
                                assert(input@->Object_0 =~= Seq::<(Seq<char>, JsonV)>::empty());
                                Decoded::Chunk(ChatChunk::ToolCall(ToolCall { id: pt.id, name: pt.name, input }))
                            } else {
                                Decoded::ToolInput { id: pt.id, name: pt.name, json: pt.json_buf }
                            }
                        },
                    },
                },
            }
        } else if str_eq(event, "message_stop") {
            let own = match parsed {
                Ok(p) => p.usage,
                Err(_) => None,
            };
            let usage = merge_usage_exec(self.usage, own);
            self.usage = None;
            Decoded::Chunk(ChatChunk::End { usage })
        } else if str_eq(event, "message_start") {
            if let Ok(p) = parsed {
                self.usage = merge_usage_exec(self.usage, p.message_usage);
            }
            Decoded::Nothing
        } else if str_eq(event, "message_delta") {
            if let Ok(p) = parsed {
                self.usage = merge_usage_exec(self.usage, p.usage);
            }
            Decoded::Nothing
        } else {
            Decoded::Nothing
        }
    }
}

/// The error for a tool input that is not valid JSON.
pub fn tool_input_error(json: &str, reason: &str) -> (e: String)
    ensures
        e@ == "anthropic tool_use input json decode (`"@ + json@ + "`): "@ + reason@,
{
    let mut m = "anthropic tool_use input json decode (`".to_owned();
    m.append(json);
    m.append("`): ");
    m.append(reason);
    m
}

/// A `content_block_delta` payload carrying input fragment `frag` for
/// block `idx`.
pub open spec fn delta_event(idx: u32, frag: String) -> AnthropicEvent {
    AnthropicEvent {
        delta: Some(AnthropicDelta { text: None, partial_json: Some(frag) }),
        usage: None,
        message_usage: None,
        index: Some(idx),
        content_block: None,
    }
}

/// The buffer after input fragments `frags` arrive, in order, for `idx`.
pub open spec fn apply_deltas(buf: Seq<(u32, PartialV)>, idx: u32, frags: Seq<String>) -> Seq<(u32, PartialV)>
    decreases frags.len(),
{
    if frags.len() == 0 {
        buf
    } else {
        apply_deltas(decode_spec(buf, None, "content_block_delta"@, Ok(delta_event(idx, frags[0]))).1, idx, frags.skip(1))
    }
}

/// The fragments joined in order.
pub open spec fn joined(frags: Seq<String>) -> Seq<char>
    decreases frags.len(),
{
    if frags.len() == 0 {
        Seq::empty()
    } else {
        frags[0]@ + joined(frags.skip(1))
    }
}

proof fn lemma_find_slot_char(s: Seq<(u32, PartialV)>, idx: u32, i: int, k: int)
    requires
        0 <= i <= k < s.len(),
        s[k].0 == idx,
        forall|j: int| i <= j < k ==> (#[trigger] s[j]).0 != idx,
    ensures
        find_slot(s, idx, i) == Some(k),
    decreases k - i,
{
    if i < k {
        lemma_find_slot_char(s, idx, i + 1, k);
    }
}

proof fn lemma_find_slot_facts(s: Seq<(u32, PartialV)>, idx: u32, i: int)
    requires
        0 <= i,
    ensures
        find_slot(s, idx, i) matches Some(k) ==> i <= k < s.len() && s[k].0 == idx && forall|j: int|
            i <= j < k ==> (#[trigger] s[j]).0 != idx,
        find_slot(s, idx, i) is None ==> forall|j: int| i <= j < s.len() ==> (#[trigger] s[j]).0 != idx,
    decreases s.len() - i,
{
    if i < s.len() && s[i].0 != idx {
        lemma_find_slot_facts(s, idx, i + 1);
    }
}

proof fn lemma_usage_event_names()
    ensures
        "message_start"@ != "content_block_start"@,
        "message_start"@ != "content_block_delta"@,
        "message_start"@ != "content_block_stop"@,
        "message_start"@ != "message_stop"@,
        "message_delta"@ != "content_block_start"@,
        "message_delta"@ != "content_block_delta"@,
        "message_delta"@ != "content_block_stop"@,
        "message_delta"@ != "message_stop"@,
        "message_delta"@ != "message_start"@,
        "message_stop"@ != "content_block_start"@,
        "message_stop"@ != "content_block_delta"@,
        "message_stop"@ != "content_block_stop"@,
{
    reveal_strlit("message_start");
    reveal_strlit("message_delta");
    reveal_strlit("message_stop");
    reveal_strlit("content_block_start");
    reveal_strlit("content_block_delta");
    reveal_strlit("content_block_stop");
    assert("message_start"@[0] != "content_block_start"@[0]);
    assert("message_start"@[0] != "content_block_delta"@[0]);
    assert("message_start"@[0] != "content_block_stop"@[0]);
    assert("message_start"@.len() != "message_stop"@.len());
    assert("message_delta"@[0] != "content_block_start"@[0]);
    assert("message_delta"@[0] != "content_block_delta"@[0]);
    assert("message_delta"@[0] != "content_block_stop"@[0]);
    assert("message_delta"@.len() != "message_stop"@.len());
    assert("message_delta"@[8] != "message_start"@[8]);
    assert("message_stop"@[0] != "content_block_start"@[0]);
    assert("message_stop"@[0] != "content_block_delta"@[0]);
    assert("message_stop"@[0] != "content_block_stop"@[0]);
}

proof fn lemma_event_names_distinct()
    ensures
        "content_block_delta"@ != "content_block_start"@,
        "content_block_stop"@ != "content_block_start"@,
        "content_block_stop"@ != "content_block_delta"@,
{
    reveal_strlit("content_block_delta");
    reveal_strlit("content_block_start");
    reveal_strlit("content_block_stop");
    assert("content_block_delta"@[14] != "content_block_start"@[14]);
    assert("content_block_stop"@.len() != "content_block_start"@.len());
    assert("content_block_stop"@.len() != "content_block_delta"@.len());
}

proof fn lemma_apply_deltas(buf: Seq<(u32, PartialV)>, idx: u32, frags: Seq<String>, k: int)
    requires
        find_slot(buf, idx, 0) == Some(k),
    ensures
        find_slot(apply_deltas(buf, idx, frags), idx, 0) == Some(k),
        apply_deltas(buf, idx, frags).len() == buf.len(),
        apply_deltas(buf, idx, frags)[k] == (
            idx,
            PartialV { id: buf[k].1.id, name: buf[k].1.name, json: buf[k].1.json + joined(frags) },
        ),
        forall|j: int| 0 <= j < buf.len() && j != k ==> #[trigger] apply_deltas(buf, idx, frags)[j] == buf[j],
    decreases frags.len(),
{
    lemma_find_slot_facts(buf, idx, 0);
    lemma_event_names_distinct();
    if frags.len() == 0 {
        assert(buf[k].1.json + Seq::<char>::empty() =~= buf[k].1.json);
        assert(buf[k] == (idx, PartialV { id: buf[k].1.id, name: buf[k].1.name, json: buf[k].1.json }));
    } else {
        let b1 = decode_spec(buf, None, "content_block_delta"@, Ok(delta_event(idx, frags[0]))).1;
        let p = PartialV { id: buf[k].1.id, name: buf[k].1.name, json: buf[k].1.json + frags[0]@ };
        assert(b1 == buf.update(k, (idx, p)));
        lemma_find_slot_char(b1, idx, 0, k);
        lemma_apply_deltas(b1, idx, frags.skip(1), k);
        assert(b1[k].1.json + joined(frags.skip(1)) =~= buf[k].1.json + joined(frags));
    }
}

/// A streamed tool call is reassembled whatever the fragmentation of its
/// input: opening block `idx`, then any run of input fragments, then
/// closing it yields the call with the fragments joined in order (`{}`
/// when they join to whitespace only), and leaves the buffer as it was
/// without block `idx`.
pub proof fn law_tool_input_reassembled(
    buf: Seq<(u32, PartialV)>,
    idx: u32,
    kind: String,
    id: String,
    name: String,
    frags: Seq<String>,
)
    requires
        kind@ == "tool_use"@,
    ensures
        ({
            let start = AnthropicEvent {
                delta: None,
                usage: None,
                message_usage: None,
                index: Some(idx),
                content_block: Some(ContentBlockMeta { kind: Some(kind), id: Some(id), name: Some(name) }),
            };
            let stop = AnthropicEvent {
                delta: None,
                usage: None,
                message_usage: None,
                index: Some(idx),
                content_block: None,
            };
            let b1 = decode_spec(buf, None, "content_block_start"@, Ok(start)).1;
            let b2 = apply_deltas(b1, idx, frags);
            let out = decode_spec(b2, None, "content_block_stop"@, Ok(stop));
            &&& out.0 == if all_ws(joined(frags)) {
                DecodedV::Chunk(
                    crate::llm::ChatChunkV::ToolCall(ToolCallV { id: id@, name: name@, input: JsonV::Object(Seq::empty()) }),
                )
            } else {
                DecodedV::ToolInput(id@, name@, joined(frags))
            }
            &&& out.1 == match find_slot(buf, idx, 0) {
                Some(k) => buf.remove(k),
                None => buf,
            }
        }),
{
    lemma_event_names_distinct();
    let start = AnthropicEvent {
        delta: None,
        usage: None,
        message_usage: None,
        index: Some(idx),
        content_block: Some(ContentBlockMeta { kind: Some(kind), id: Some(id), name: Some(name) }),
    };
    let b1 = decode_spec(buf, None, "content_block_start"@, Ok(start)).1;
    let p0 = PartialV { id: id@, name: name@, json: Seq::empty() };
    assert(b1 == slot_insert(buf, idx, p0));
    lemma_find_slot_facts(buf, idx, 0);
    let k = match find_slot(buf, idx, 0) {
        Some(k) => k,
        None => buf.len() as int,
    };
    assert(b1[k] == (idx, p0));
    assert forall|j: int| 0 <= j < k implies (#[trigger] b1[j]).0 != idx by {
        assert(b1[j] == buf[j]);
    }
    lemma_find_slot_char(b1, idx, 0, k);
    lemma_apply_deltas(b1, idx, frags, k);
    let b2 = apply_deltas(b1, idx, frags);
    assert(Seq::<char>::empty() + joined(frags) =~= joined(frags));
    let expect = match find_slot(buf, idx, 0) {
        Some(k0) => buf.remove(k0),
        None => buf,
    };
    assert(b2.remove(k) =~= expect) by {
        assert forall|j: int| 0 <= j < b2.remove(k).len() implies #[trigger] b2.remove(k)[j] == expect[j] by {
            if j < k {
                assert(b2[j] == b1[j]);
                assert(b1[j] == buf[j]);
            } else {
                assert(b2[j + 1] == b1[j + 1]);
                assert(b1[j + 1] == buf[j + 1]);
            }
        }
    }
}

} // verus!
