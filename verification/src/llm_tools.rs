//! The tools the agent may call, how a call is routed, and the agent
//! loop's decisions: when to stop, what to emit, what to append to the
//! conversation.

use vstd::prelude::*;
use vstd::string::StringExecFns;
use crate::json::{
    Json, JsonV, entries_view, int_number, items_view, jarr, jint, jobj, jstr, json_get,
    json_as_u64, obj_keys,
};
use crate::rules::{
    Difficulty, ValidationResult, base_spec, difficulty_name, parse_difficulty, per_pc_spec,
    statblock_errors, statblock_warnings, str_field, texts, validate_statblock, xp_budget,
    xp_budget_spec,
};
use crate::text::{nat_decimal, str_eq, u64_to_string};
use crate::llm::{
    ChatChunk, Message, MessageV, Role, ToolCall, ToolCallV, ToolSpec, UsageSummary, opt_int,
    usage_fits, usage_sum,
};

verus! {

/// The tool ids, in the order they are advertised.
pub const TOOL_IDS: [&'static str; 5] = ["lookup_alias", "lookup_miracle", "search", "validate_statblock", "xp_budget"];

/// Maximum model round-trips per user turn.
pub const MAX_ITERATIONS: usize = 5;

pub open spec fn tool_ids() -> Seq<Seq<char>> {
    seq!["lookup_alias"@, "lookup_miracle"@, "search"@, "validate_statblock"@, "xp_budget"@]
}

pub open spec fn tool_description(i: int) -> Seq<char> {
    if i == 0 {
        "Look up a PF2e legacy → Remaster name (e.g. \"Heal\" → \"Soothe\"). Use for any monster, spell, or feat the user names that might use the older terminology."@
    } else if i == 1 {
        "Map a biblical miracle (e.g. \"fed the 5000\", \"parted the Red Sea\") to its PF2e Remaster spell + sanctification. Returns Bible reference, tradition, and notes."@
    } else if i == 2 {
        "Hybrid FTS+vector search over the bundled lens content. Use when the user asks about a doctrine, deity, saint, miracle, or world fact that might live in the active lens pack."@
    } else if i == 3 {
        "Validate a PF2e Remaster statblock JSON: checks sanctification (holy/unholy/spirit/vitality/void), license-provenance, and required fields. Returns errors + warnings."@
    } else {
        "PF2e Remaster encounter XP budget. Use to size encounters: returns base budget + per-PC adjustment for the given party size & difficulty."@
    }
}

/// The argument names a tool declares, in order.
pub open spec fn tool_properties(i: int) -> Seq<Seq<char>> {
    if i == 0 {
        seq!["name"@]
    } else if i == 1 {
        seq!["query"@]
    } else if i == 2 {
        seq!["lens"@, "query"@]
    } else if i == 3 {
        seq!["statblock"@]
    } else {
        seq!["difficulty"@, "party_size"@]
    }
}

/// The arguments a tool requires, in order.
pub open spec fn tool_required(i: int) -> Seq<Seq<char>> {
    if i == 0 {
        seq!["name"@]
    } else if i == 1 {
        seq!["query"@]
    } else if i == 2 {
        seq!["query"@]
    } else if i == 3 {
        seq!["statblock"@]
    } else {
        seq!["party_size"@, "difficulty"@]
    }
}

pub open spec fn texts_json(s: Seq<Seq<char>>) -> Seq<JsonV> {
    s.map_values(|x: Seq<char>| JsonV::Str(x))
}

/// An object schema: `type` is `object`, with the given properties and
/// required argument names.
pub open spec fn is_object_schema(j: JsonV, props: Seq<Seq<char>>, required: Seq<Seq<char>>) -> bool {
    &&& json_get(j, "type"@) == Some(JsonV::Str("object"@))
    &&& json_get(j, "required"@) == Some(JsonV::Array(texts_json(required)))
    &&& json_get(j, "properties"@) matches Some(p) && obj_keys(p) == props
}

proof fn lemma_schema_keys()
    ensures
        "properties"@ != "required"@,
        "properties"@ != "type"@,
        "required"@ != "type"@,
{
    reveal_strlit("properties");
    reveal_strlit("required");
    reveal_strlit("type");
    assert("properties"@.len() != "required"@.len());
    assert("properties"@.len() != "type"@.len());
    assert("required"@.len() != "type"@.len());
}

/// A property schema: `{"description": description, "type": ty}`.
fn property(ty: &str, description: &str) -> (j: Json)
    ensures
        j@ == JsonV::Object(seq![("description"@, JsonV::Str(description@)), ("type"@, JsonV::Str(ty@))]),
{
    let es = vec![("description".to_owned(), jstr(description)), ("type".to_owned(), jstr(ty))];
    assert(crate::json::entries_view(es@) =~= seq![("description"@, JsonV::Str(description@)), ("type"@, JsonV::Str(ty@))]);
    jobj(es)
}

/// The keys of an entry list, in order.
pub open spec fn keys_of(es: Seq<(String, Json)>) -> Seq<Seq<char>> {
    es.map_values(|e: (String, Json)| e.0@)
}

proof fn lemma_obj_find_3(es: Seq<(Seq<char>, JsonV)>)
    requires
        es.len() == 3,
        es[0].0 == "properties"@,
        es[1].0 == "required"@,
        es[2].0 == "type"@,
    ensures
        json_get(JsonV::Object(es), "properties"@) == Some(es[0].1),
        json_get(JsonV::Object(es), "required"@) == Some(es[1].1),
        json_get(JsonV::Object(es), "type"@) == Some(es[2].1),
{
    lemma_schema_keys();
    reveal_with_fuel(crate::json::obj_find, 4);
}

fn object_schema(properties: Vec<(String, Json)>, required: Vec<String>) -> (j: Json)
    ensures
        is_object_schema(j@, keys_of(properties@), texts(required@)),
{
    let ghost keys = keys_of(properties@);
    let mut req: Vec<Json> = Vec::new();
    let mut i: usize = 0;
    while i < required.len()
        invariant
            i <= required@.len(),
            items_view(req@) =~= texts_json(texts(required@.take(i as int))),
        decreases required@.len() - i,
    {
        let x = jstr(required[i].as_str());
        let ghost old_req = req@;
        req.push(x);
        assert(req@ == old_req.push(x));
        assert(texts(required@.take(i + 1)) =~= texts(required@.take(i as int)).push(required@[i as int]@));
        assert(items_view(req@) =~= items_view(old_req).push(x@));
        i = i + 1;
    }
    assert(required@.take(required@.len() as int) =~= required@);
    let props = jobj(properties);
    assert(obj_keys(props@) =~= keys);
    let reqs = jarr(req);
    let ty = jstr("object");
    let j = jobj(vec![("properties".to_owned(), props), ("required".to_owned(), reqs), ("type".to_owned(), ty)]);
    proof {
        let ev = j@->Object_0;
        lemma_obj_find_3(ev);
    }
    j
}

fn make_spec(name: &str, description: &str, properties: Vec<(String, Json)>, required: Vec<String>) -> (t: ToolSpec)
    ensures
        t.name@ == name@,
        t.description@ == description@,
        is_object_schema(t.input_schema@, keys_of(properties@), texts(required@)),
{
    ToolSpec {
        name: name.to_owned(),
        description: description.to_owned(),
        input_schema: object_schema(properties, required),
    }
}

/// The tool list advertised to the model, in the order of `TOOL_IDS`.
pub fn tool_specs() -> (r: Vec<ToolSpec>)
    ensures
        r@.len() == 5,
        forall|i: int|
            0 <= i < 5 ==> {
                &&& (#[trigger] r@[i]).name@ == tool_ids()[i]
                &&& r@[i].description@ == tool_description(i)
                &&& is_object_schema(r@[i].input_schema@, tool_properties(i), tool_required(i))
            },
{
    let p0 = vec![("name".to_owned(), property("string", "Name to translate (case-insensitive)."))];
    let q0 = vec!["name".to_owned()];
    assert(keys_of(p0@) =~= tool_properties(0));
    assert(texts(q0@) =~= tool_required(0));
    let alias = make_spec(
        "lookup_alias",
        "Look up a PF2e legacy → Remaster name (e.g. \"Heal\" → \"Soothe\"). Use for any monster, spell, or feat the user names that might use the older terminology.",
        p0,
        q0,
    );
    let p1 = vec![("query".to_owned(), property("string", "Miracle name, Bible reference, or spell name."))];
    let q1 = vec!["query".to_owned()];
    assert(keys_of(p1@) =~= tool_properties(1));
    assert(texts(q1@) =~= tool_required(1));
    let miracle = make_spec(
        "lookup_miracle",
        "Map a biblical miracle (e.g. \"fed the 5000\", \"parted the Red Sea\") to its PF2e Remaster spell + sanctification. Returns Bible reference, tradition, and notes.",
        p1,
        q1,
    );
    let p2 = vec![
        ("lens".to_owned(), property("string", "Optional lens id (lewisian/catholic/reformed/pentecostal/orthodox).")),
        ("query".to_owned(), property("string", "What to search for. Paraphrase the user's question.")),
    ];
    let q2 = vec!["query".to_owned()];
    assert(keys_of(p2@) =~= tool_properties(2));
    assert(texts(q2@) =~= tool_required(2));
    let search = make_spec(
        "search",
        "Hybrid FTS+vector search over the bundled lens content. Use when the user asks about a doctrine, deity, saint, miracle, or world fact that might live in the active lens pack.",
        p2,
        q2,
    );
    let p3 = vec![("statblock".to_owned(), property("object", "The statblock JSON to validate."))];
    let q3 = vec!["statblock".to_owned()];
    assert(keys_of(p3@) =~= tool_properties(3));
    assert(texts(q3@) =~= tool_required(3));
    let validate = make_spec(
        "validate_statblock",
        "Validate a PF2e Remaster statblock JSON: checks sanctification (holy/unholy/spirit/vitality/void), license-provenance, and required fields. Returns errors + warnings.",
        p3,
        q3,
    );
    let levels = jarr(vec![jstr("trivial"), jstr("low"), jstr("moderate"), jstr("severe"), jstr("extreme")]);
    let difficulty = jobj(vec![("enum".to_owned(), levels), ("type".to_owned(), jstr("string"))]);
    let party_size = jobj(vec![
        ("maximum".to_owned(), jint(12)),
        ("minimum".to_owned(), jint(1)),
        ("type".to_owned(), jstr("integer")),
    ]);
    let p4 = vec![("difficulty".to_owned(), difficulty), ("party_size".to_owned(), party_size)];
    let q4 = vec!["party_size".to_owned(), "difficulty".to_owned()];
    assert(keys_of(p4@) =~= tool_properties(4));
    assert(texts(q4@) =~= tool_required(4));
    let xp = make_spec(
        "xp_budget",
        "PF2e Remaster encounter XP budget. Use to size encounters: returns base budget + per-PC adjustment for the given party size & difficulty.",
        p4,
        q4,
    );
    vec![alias, miracle, search, validate, xp]
}

/// What a tool call asks for once its arguments are checked: a lookup
/// the caller runs against the reference tables or the search index, or
/// an answer computed here.
#[derive(Debug)]
pub enum ToolRequest {
    /// Remaster aliases whose legacy or current name contains `name`.
    LookupAlias { name: String },
    /// Miracle mappings whose miracle, reference or spell contains
    /// `query`, or whose book is `query`.
    LookupMiracle { query: String },
    /// Hybrid search of `query` in lens `lens`.
    Search { query: String, lens: String },
    /// The tool's result.
    Answer(Json),
}

pub enum ToolRequestV {
    LookupAlias(Seq<char>),
    LookupMiracle(Seq<char>),
    Search(Seq<char>, Seq<char>),
    Answer(JsonV),
}

impl View for ToolRequest {
    type V = ToolRequestV;

    open spec fn view(&self) -> ToolRequestV {
        match self {
            ToolRequest::LookupAlias { name } => ToolRequestV::LookupAlias(name@),
            ToolRequest::LookupMiracle { query } => ToolRequestV::LookupMiracle(query@),
            ToolRequest::Search { query, lens } => ToolRequestV::Search(query@, lens@),
            ToolRequest::Answer(j) => ToolRequestV::Answer(j@),
        }
    }
}

/// The JSON form of a statblock check.
pub open spec fn validation_json(errors: Seq<Seq<char>>, warnings: Seq<Seq<char>>) -> JsonV {
    JsonV::Object(
        seq![
            ("errors"@, JsonV::Array(texts_json(errors))),
            ("valid"@, JsonV::Bool(errors.len() == 0)),
            ("warnings"@, JsonV::Array(texts_json(warnings))),
        ],
    )
}

/// The JSON answer of `xp_budget` for a party of `n` and band `d`.
pub open spec fn xp_json(n: int, d: Difficulty) -> JsonV {
    JsonV::Object(
        seq![
            ("base_for_party_of_4"@, JsonV::Number(int_number(base_spec(d)))),
            ("difficulty"@, JsonV::Str(difficulty_name(d))),
            ("party_size"@, JsonV::Number(int_number(n))),
            ("per_pc_adjust"@, JsonV::Number(int_number(per_pc_spec(d)))),
            ("xp_budget"@, JsonV::Number(int_number(xp_budget_spec(n, d)))),
        ],
    )
}

pub open spec fn unknown_variant_msg(s: Seq<char>) -> Seq<char> {
    "unknown variant `"@ + s + "`, expected one of `trivial`, `low`, `moderate`, `severe`, `extreme`"@
}

/// How a tool call is answered, or why it is refused.
pub open spec fn route_spec(name: Seq<char>, input: JsonV) -> Result<ToolRequestV, Seq<char>> {
    if name == "lookup_alias"@ {
        match str_field(input, "name"@) {
            Some(n) => Ok(ToolRequestV::LookupAlias(n)),
            None => Err("lookup_alias.name missing"@),
        }
    } else if name == "lookup_miracle"@ {
        match str_field(input, "query"@) {
            Some(q) => Ok(ToolRequestV::LookupMiracle(q)),
            None => Err("lookup_miracle.query missing"@),
        }
    } else if name == "search"@ {
        match str_field(input, "query"@) {
            Some(q) => Ok(
                ToolRequestV::Search(
                    q,
                    match str_field(input, "lens"@) {
                        Some(l) => l,
                        None => "lewisian"@,
                    },
                ),
            ),
            None => Err("search.query missing"@),
        }
    } else if name == "validate_statblock"@ {
        match json_get(input, "statblock"@) {
            Some(sb) => Ok(
                ToolRequestV::Answer(validation_json(statblock_errors(sb), statblock_warnings(sb))),
            ),
            None => Err("validate_statblock.statblock missing"@),
        }
    } else if name == "xp_budget"@ {
        match u64_field(input, "party_size"@) {
            None => Err("xp_budget.party_size missing"@),
            Some(raw) => {
                match str_field(input, "difficulty"@) {
                    None => Err("xp_budget.difficulty missing"@),
                    Some(ds) => match parse_difficulty(ds) {
                        None => Err(unknown_variant_msg(ds)),
                        Some(d) => if raw == 0 || raw > 12 {
                            Err("party_size "@ + nat_decimal(raw as nat) + " outside 1..=12"@)
                        } else {
                            Ok(ToolRequestV::Answer(xp_json(raw as int, d)))
                        },
                    },
                }
            },
        }
    } else {
        Err("unknown tool `"@ + name + "`"@)
    }
}

/// A search call is routed with the query and the lens the model passed:
/// a text `lens` in the input is the lens searched, and `lewisian` is
/// used only when the input gives no text `lens`.
pub proof fn law_search_uses_given_lens(input: JsonV, q: Seq<char>)
    requires
        json_get(input, "query"@) == Some(JsonV::Str(q)),
    ensures
        forall|l: Seq<char>|
            #[trigger] json_get(input, "lens"@) == Some(JsonV::Str(l)) ==> route_spec("search"@, input) == Ok::<
                ToolRequestV,
                Seq<char>,
            >(ToolRequestV::Search(q, l)),
        !(json_get(input, "lens"@) matches Some(JsonV::Str(_))) ==> route_spec("search"@, input) == Ok::<
            ToolRequestV,
            Seq<char>,
        >(ToolRequestV::Search(q, "lewisian"@)),
{
    reveal_strlit("search");
    reveal_strlit("lookup_alias");
    reveal_strlit("lookup_miracle");
    assert("search"@[0] != "lookup_alias"@[0]);
    assert("search"@[0] != "lookup_miracle"@[0]);
}

/// The unsigned integer under `k`, if any.
pub open spec fn u64_field(v: JsonV, k: Seq<char>) -> Option<u64> {
    match json_get(v, k) {
        Some(x) => json_as_u64(x),
        None => None,
    }
}

impl ValidationResult {
    /// The JSON object a caller receives for this check.
    pub fn to_json(&self) -> (j: Json)
        requires
            self.valid == (self.errors@.len() == 0),
        ensures
            j@ == validation_json(texts(self.errors@), texts(self.warnings@)),
    {
        let errors = strings_json(&self.errors);
        let warnings = strings_json(&self.warnings);
        let j = jobj(vec![
            ("errors".to_owned(), errors),
            ("valid".to_owned(), Json::Bool(self.valid)),
            ("warnings".to_owned(), warnings),
        ]);
        assert(j@->Object_0 =~= validation_json(texts(self.errors@), texts(self.warnings@))->Object_0);
        j
    }
}

fn strings_json(v: &Vec<String>) -> (j: Json)
    ensures
        j@ == JsonV::Array(texts_json(texts(v@))),
{
    let mut out: Vec<Json> = Vec::new();
    let mut i: usize = 0;
    while i < v.len()
        invariant
            i <= v@.len(),
            items_view(out@) =~= texts_json(texts(v@.take(i as int))),
        decreases v@.len() - i,
    {
        let x = jstr(v[i].as_str());
        let ghost before = out@;
        out.push(x);
        assert(texts(v@.take(i + 1)) =~= texts(v@.take(i as int)).push(v@[i as int]@));
        assert(items_view(out@) =~= items_view(before).push(x@));
        i = i + 1;
    }
    assert(v@.take(v@.len() as int) =~= v@);
    jarr(out)
}

fn string_field(input: &Json, key: &str) -> (r: Option<String>)
    ensures
        match r {
            Some(s) => str_field(input@, key@) == Some(s@),
            None => str_field(input@, key@) is None,
        },
{
    match input.get(key) {
        Some(v) => match v.as_str() {
            Some(s) => Some(s.to_owned()),
            None => None,
        },
        None => None,
    }
}

fn xp_answer(n: u8, d: Difficulty) -> (j: Json)
    requires
        1 <= n <= 12,
    ensures
        j@ == xp_json(n as int, d),
{
    let budget = xp_budget(n, d);
    let base = d.base_budget_for_party_of_4();
    let per = d.per_pc_adjust();
    let j = jobj(vec![
        ("base_for_party_of_4".to_owned(), jint(base as i64)),
        ("difficulty".to_owned(), jstr(d.name())),
        ("party_size".to_owned(), jint(n as i64)),
        ("per_pc_adjust".to_owned(), jint(per as i64)),
        ("xp_budget".to_owned(), jint(budget as i64)),
    ]);
    assert(j@->Object_0 =~= xp_json(n as int, d)->Object_0);
    j
}

/// Check a tool call's arguments and say what answers it: the lookups go
/// back to the caller, `validate_statblock` and `xp_budget` are answered
/// here. `party_size` must be an unsigned integer in 1..=12, as the tool's
/// schema advertises; any other value is refused.
pub fn route_tool(call: &ToolCall) -> (r: Result<ToolRequest, String>)
    ensures
        match r {
            Ok(q) => route_spec(call.name@, call.input@) == Ok::<ToolRequestV, Seq<char>>(q@),
            Err(e) => route_spec(call.name@, call.input@) == Err::<ToolRequestV, Seq<char>>(e@),
        },
{
    let name = call.name.as_str();
    let input = &call.input;
    if str_eq(name, "lookup_alias") {
        match string_field(input, "name") {
            Some(n) => Ok(ToolRequest::LookupAlias { name: n }),
            None => Err("lookup_alias.name missing".to_owned()),
        }
    } else if str_eq(name, "lookup_miracle") {
        match string_field(input, "query") {
            Some(q) => Ok(ToolRequest::LookupMiracle { query: q }),
            None => Err("lookup_miracle.query missing".to_owned()),
        }
    } else if str_eq(name, "search") {
        match string_field(input, "query") {
            Some(q) => {
                let lens = match string_field(input, "lens") {
                    Some(l) => l,
                    None => "lewisian".to_owned(),
                };
                Ok(ToolRequest::Search { query: q, lens })
            },
            None => Err("search.query missing".to_owned()),
        }
    } else if str_eq(name, "validate_statblock") {
        match input.get("statblock") {
            Some(sb) => {
                let res = validate_statblock(sb);
                Ok(ToolRequest::Answer(res.to_json()))
            },
            None => Err("validate_statblock.statblock missing".to_owned()),
        }
    } else if str_eq(name, "xp_budget") {
        let raw = match input.get("party_size") {
            Some(v) => v.as_u64(),
            None => None,
        };
        match raw {
            None => Err("xp_budget.party_size missing".to_owned()),
            Some(raw) => {
                match string_field(input, "difficulty") {
                    None => Err("xp_budget.difficulty missing".to_owned()),
                    Some(ds) => match Difficulty::from_name(ds.as_str()) {
                        None => {
                            let mut m = "unknown variant `".to_owned();
                            m.append(ds.as_str());
                            m.append("`, expected one of `trivial`, `low`, `moderate`, `severe`, `extreme`");
                            Err(m)
                        },
                        Some(d) => {
                            if raw == 0 || raw > 12 {
                                let mut m = "party_size ".to_owned();
                                let digits = u64_to_string(raw);
                                m.append(digits.as_str());
                                m.append(" outside 1..=12");
                                Err(m)
                            } else {
                                Ok(ToolRequest::Answer(xp_answer(raw as u8, d)))
                            }
                        },
                    },
                }
            },
        }
    } else {
        let mut m = "unknown tool `".to_owned();
        m.append(name);
        m.append("`");
        Err(m)
    }
}

/// What the agent reports while it runs.
#[derive(Debug)]
pub enum AgentEvent {
    /// A piece of assistant prose.
    Text(String),
    /// The model issued a tool call.
    ToolStart { id: String, name: String, input: Json },
    /// A tool's result was appended to the conversation.
    ToolResult { id: String, name: String, result: Json, error: bool },
    /// The run ended: total usage and the number of model round-trips.
    End { usage: UsageSummary, iterations: usize },
}

pub enum AgentEventV {
    Text(Seq<char>),
    ToolStart(Seq<char>, Seq<char>, JsonV),
    ToolResult(Seq<char>, Seq<char>, JsonV, bool),
    End(UsageSummary, usize),
}

impl View for AgentEvent {
    type V = AgentEventV;

    open spec fn view(&self) -> AgentEventV {
        match self {
            AgentEvent::Text(s) => AgentEventV::Text(s@),
            AgentEvent::ToolStart { id, name, input } => AgentEventV::ToolStart(id@, name@, input@),
            AgentEvent::ToolResult { id, name, result, error } => AgentEventV::ToolResult(
                id@,
                name@,
                result@,
                *error,
            ),
            AgentEvent::End { usage, iterations } => AgentEventV::End(*usage, *iterations),
        }
    }
}

/// One optional count added to a running total.
pub open spec fn add_count(a: Option<int>, b: Option<u32>) -> Option<int> {
    match (a, b) {
        (Some(x), Some(y)) => Some(x + y),
        (Some(x), None) => Some(x),
        (None, Some(y)) => Some(y as int),
        (None, None) => None,
    }
}

/// The total of a list of optional counts: absent when none is present.
pub open spec fn count_total(h: Seq<Option<u32>>) -> Option<int>
    decreases h.len(),
{
    if h.len() == 0 {
        None
    } else {
        add_count(count_total(h.drop_last()), h.last())
    }
}

/// `t` is, field by field, the total of the reports in `h`.
pub open spec fn usage_matches(t: UsageSummary, h: Seq<UsageSummary>) -> bool {
    &&& opt_int(t.input_tokens) == count_total(h.map_values(|u: UsageSummary| u.input_tokens))
    &&& opt_int(t.output_tokens) == count_total(h.map_values(|u: UsageSummary| u.output_tokens))
    &&& opt_int(t.cache_read_input_tokens) == count_total(
        h.map_values(|u: UsageSummary| u.cache_read_input_tokens),
    )
    &&& opt_int(t.cache_creation_input_tokens) == count_total(
        h.map_values(|u: UsageSummary| u.cache_creation_input_tokens),
    )
}

/// The agent loop's state for one user turn: the conversation, the
/// round-trips made, the usage reported so far, and the reply being
/// streamed (its text and the tool calls it issued).
pub struct AgentLoop {
    pub messages: Vec<Message>,
    pub iterations: usize,
    pub total_usage: UsageSummary,
    pub assistant_text: String,
    pub pending: Vec<ToolCall>,
    /// Every usage report absorbed so far, in order.
    pub reported: Ghost<Seq<UsageSummary>>,
}

/// How a streamed reply ends: the run is over, or these tool calls must
/// run before the next round-trip.
#[derive(Debug)]
pub enum StreamEnd {
    Done(AgentEvent),
    RunTools(Vec<ToolCall>),
}

pub open spec fn msgs_view(m: Seq<Message>) -> Seq<MessageV> {
    m.map_values(|x: Message| x@)
}

pub open spec fn calls_view(c: Seq<ToolCall>) -> Seq<ToolCallV> {
    c.map_values(|x: ToolCall| x@)
}

pub open spec fn cap_message() -> Seq<char> {
    "agent hit the 5-iteration cap; aborting"@
}

impl AgentLoop {
    /// Well-formed: at most one round-trip past the cap, and the usage
    /// total is the total of every report absorbed.
    pub open spec fn wf(&self) -> bool {
        &&& self.iterations <= MAX_ITERATIONS + 1
        &&& usage_matches(self.total_usage, self.reported@)
    }

    /// A fresh run over `messages`.
    pub fn new(messages: Vec<Message>) -> (st: AgentLoop)
        ensures
            st.wf(),
            st.messages@ == messages@,
            st.iterations == 0,
            st.reported@ == Seq::<UsageSummary>::empty(),
            st.pending@.len() == 0,
            st.assistant_text@.len() == 0,
    {
        let st = AgentLoop {
            messages,
            iterations: 0,
            total_usage: UsageSummary::default(),
            assistant_text: String::new(),
            pending: Vec::new(),
            reported: Ghost(Seq::empty()),
        };
        proof {
            let h = st.reported@;
            assert(h.map_values(|u: UsageSummary| u.input_tokens).len() == 0);
            assert(h.map_values(|u: UsageSummary| u.output_tokens).len() == 0);
            assert(h.map_values(|u: UsageSummary| u.cache_read_input_tokens).len() == 0);
            assert(h.map_values(|u: UsageSummary| u.cache_creation_input_tokens).len() == 0);
        }
        st
    }

    /// Begin a round-trip: count it, and refuse once the cap is passed.
    /// A round-trip that may go ahead starts with no text and no calls.
    pub fn start_iteration(&mut self) -> (r: Result<(), String>)
        requires
            old(self).wf(),
            old(self).iterations <= MAX_ITERATIONS,
        ensures
            final(self).wf(),
            final(self).iterations == old(self).iterations + 1,
            r is Ok <==> final(self).iterations <= MAX_ITERATIONS,
            r matches Err(e) ==> e@ == cap_message(),
            r is Ok ==> final(self).assistant_text@.len() == 0 && final(self).pending@.len() == 0,
            final(self).messages@ == old(self).messages@,
            final(self).total_usage == old(self).total_usage,
            final(self).reported@ == old(self).reported@,
    {
        self.iterations = self.iterations + 1;
        if self.iterations > MAX_ITERATIONS {
            return Err("agent hit the 5-iteration cap; aborting".to_owned());
        }
        self.assistant_text = String::new();
        self.pending = Vec::new();
        Ok(())
    }

    /// Whether absorbing `chunk` keeps every usage total within `u32`.
    pub fn accepts(&self, chunk: &ChatChunk) -> (r: bool)
        ensures
            r == (*chunk matches ChatChunk::End { usage: Some(u) } ==> usage_fits(self.total_usage, u)),
    {
        match chunk {
            ChatChunk::End { usage: Some(u) } => self.total_usage.can_add(u),
            _ => true,
        }
    }

    /// Absorb one streamed chunk: text is appended and echoed, a tool
    /// call is queued and announced, a usage report is added to the total.
    pub fn on_chunk(&mut self, chunk: ChatChunk) -> (ev: Option<AgentEvent>)
        requires
            old(self).wf(),
            chunk matches ChatChunk::End { usage: Some(u) } ==> usage_fits(old(self).total_usage, u),
        ensures
            final(self).wf(),
            final(self).messages@ == old(self).messages@,
            final(self).iterations == old(self).iterations,
            match chunk {
                ChatChunk::Text(s) => {
                    &&& final(self).assistant_text@ == old(self).assistant_text@ + s@
                    &&& ev matches Some(e) && e@ == AgentEventV::Text(s@)
                    &&& final(self).pending@ == old(self).pending@
                    &&& final(self).total_usage == old(self).total_usage
                    &&& final(self).reported@ == old(self).reported@
                },
                ChatChunk::ToolCall(tc) => {
                    &&& calls_view(final(self).pending@) == calls_view(old(self).pending@).push(tc@)
                    &&& ev matches Some(e) && e@ == AgentEventV::ToolStart(tc.id@, tc.name@, tc.input@)
                    &&& final(self).assistant_text@ == old(self).assistant_text@
                    &&& final(self).total_usage == old(self).total_usage
                    &&& final(self).reported@ == old(self).reported@
                },
                ChatChunk::End { usage } => {
                    &&& ev is None
                    &&& final(self).assistant_text@ == old(self).assistant_text@
                    &&& final(self).pending@ == old(self).pending@
                    &&& match usage {
                        Some(u) => usage_sum(old(self).total_usage, u, final(self).total_usage)
                            && final(self).reported@ == old(self).reported@.push(u),
                        None => final(self).total_usage == old(self).total_usage
                            && final(self).reported@ == old(self).reported@,
                    }
                },
            },
    {
        match chunk {
            ChatChunk::Text(s) => {
                self.assistant_text.append(s.as_str());
                Some(AgentEvent::Text(s))
            },
            ChatChunk::ToolCall(tc) => {
                let ev = AgentEvent::ToolStart {
                    id: tc.id.clone(),
                    name: tc.name.clone(),
                    input: tc.input.deep_clone(),
                };
                let ghost before = self.pending@;
                self.pending.push(tc);
                assert(calls_view(self.pending@) =~= calls_view(before).push(tc@));
                Some(ev)
            },
            ChatChunk::End { usage } => {
                match usage {
                    Some(u) => {
                        let t = self.total_usage.add(&u);
                        proof {
                            lemma_usage_step(self.total_usage, self.reported@, u, t);
                        }
                        self.total_usage = t;
                        self.reported = Ghost(self.reported@.push(u));
                    },
                    None => {},
                }
                None
            },
        }
    }

    /// The reply has been streamed. Without tool calls the run ends with
    /// the usage total and the round-trip count; otherwise the assistant
    /// turn (its text and calls) joins the conversation and the calls are
    /// handed back to be run.
    pub fn finish_stream(&mut self) -> (r: StreamEnd)
        requires
            old(self).wf(),
        ensures
            final(self).wf(),
            final(self).iterations == old(self).iterations,
            final(self).total_usage == old(self).total_usage,
            final(self).reported@ == old(self).reported@,
            final(self).pending@.len() == 0,
            old(self).pending@.len() == 0 ==> {
                &&& r matches StreamEnd::Done(e) && e@ == AgentEventV::End(
                    old(self).total_usage,
                    old(self).iterations,
                )
                &&& final(self).messages@ == old(self).messages@
            },
            old(self).pending@.len() > 0 ==> {
                &&& r matches StreamEnd::RunTools(calls) && calls_view(calls@) == calls_view(
                    old(self).pending@,
                )
                &&& msgs_view(final(self).messages@) == msgs_view(old(self).messages@).push(
                    MessageV {
                        role: Role::Assistant,
                        content: old(self).assistant_text@,
                        tool_calls: calls_view(old(self).pending@),
                        tool_call_id: None,
                    },
                )
            },
    {
        if self.pending.len() == 0 {
            return StreamEnd::Done(AgentEvent::End { usage: self.total_usage, iterations: self.iterations });
        }
        let mut copies: Vec<ToolCall> = Vec::new();
        let mut i: usize = 0;
        while i < self.pending.len()
            invariant
                i <= self.pending@.len(),
                calls_view(copies@) =~= calls_view(self.pending@.take(i as int)),
            decreases self.pending@.len() - i,
        {
            let c = self.pending[i].duplicate();
            let ghost before = copies@;
            copies.push(c);
            assert(calls_view(self.pending@.take(i + 1)) =~= calls_view(self.pending@.take(i as int)).push(
                self.pending@[i as int]@,
            ));
            assert(calls_view(copies@) =~= calls_view(before).push(c@));
            i = i + 1;
        }
        assert(self.pending@.take(self.pending@.len() as int) =~= self.pending@);
        let mut text = String::new();
        std::mem::swap(&mut text, &mut self.assistant_text);
        let mut calls: Vec<ToolCall> = Vec::new();
        std::mem::swap(&mut calls, &mut self.pending);
        let m = Message { role: Role::Assistant, content: text, tool_calls: copies, tool_call_id: None };
        let ghost before = self.messages@;
        self.messages.push(m);
        assert(msgs_view(self.messages@) =~= msgs_view(before).push(m@));
        StreamEnd::RunTools(calls)
    }

    /// A tool call has been answered: its result joins the conversation
    /// as a tool turn naming the call, with `content` as the text of
    /// `result`, and is reported.
    pub fn record_tool_result(&mut self, call: &ToolCall, result: Json, error: bool, content: String) -> (ev: AgentEvent)
        requires
            old(self).wf(),
        ensures
            final(self).wf(),
            final(self).iterations == old(self).iterations,
            final(self).total_usage == old(self).total_usage,
            final(self).reported@ == old(self).reported@,
            final(self).pending@ == old(self).pending@,
            final(self).assistant_text@ == old(self).assistant_text@,
            msgs_view(final(self).messages@) == msgs_view(old(self).messages@).push(
                MessageV {
                    role: Role::Tool,
                    content: content@,
                    tool_calls: Seq::empty(),
                    tool_call_id: Some(call.id@),
                },
            ),
            ev@ == AgentEventV::ToolResult(call.id@, call.name@, result@, error),
    {
        let m = Message {
            role: Role::Tool,
            content,
            tool_calls: Vec::new(),
            tool_call_id: Some(call.id.clone()),
        };
        let ghost before = self.messages@;
        self.messages.push(m);
        assert(msgs_view(self.messages@) =~= msgs_view(before).push(m@));
        assert(calls_view(m.tool_calls@) =~= Seq::<ToolCallV>::empty());
        AgentEvent::ToolResult { id: call.id.clone(), name: call.name.clone(), result, error }
    }
}

/// The value a tool call produced, and whether it failed: a failure
/// becomes `{"error": message}`.
pub fn tool_outcome(outcome: Result<Json, String>) -> (r: (Json, bool))
    ensures
        match outcome {
            Ok(v) => r.0@ == v@ && !r.1,
            Err(e) => r.0@ == JsonV::Object(seq![("error"@, JsonV::Str(e@))]) && r.1,
        },
{
    match outcome {
        Ok(v) => (v, false),
        Err(e) => {
            let j = jobj(vec![("error".to_owned(), jstr(e.as_str()))]);
            assert(j@->Object_0 =~= seq![("error"@, JsonV::Str(e@))]);
            (j, true)
        },
    }
}

proof fn lemma_usage_step(t: UsageSummary, h: Seq<UsageSummary>, u: UsageSummary, r: UsageSummary)
    requires
        usage_matches(t, h),
        usage_sum(t, u, r),
    ensures
        usage_matches(r, h.push(u)),
{
    let h2 = h.push(u);
    assert(h2.map_values(|x: UsageSummary| x.input_tokens).drop_last() =~= h.map_values(
        |x: UsageSummary| x.input_tokens,
    ));
    assert(h2.map_values(|x: UsageSummary| x.output_tokens).drop_last() =~= h.map_values(
        |x: UsageSummary| x.output_tokens,
    ));
    assert(h2.map_values(|x: UsageSummary| x.cache_read_input_tokens).drop_last() =~= h.map_values(
        |x: UsageSummary| x.cache_read_input_tokens,
    ));
    assert(h2.map_values(|x: UsageSummary| x.cache_creation_input_tokens).drop_last()
        =~= h.map_values(|x: UsageSummary| x.cache_creation_input_tokens));
}

} // verus!
