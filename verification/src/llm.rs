//! Chat-model vocabulary shared by the providers, the agent loop and the
//! evaluation harness, plus the provider-configuration rules.

use vstd::prelude::*;
use crate::json::{Json, JsonV};
use crate::text::{chars_of, opt_view, string_from_chars};

verus! {

/// Who speaks a message.
#[derive(Debug, Clone, Copy, PartialEq, Eq, Structural)]
pub enum Role {
    System,
    User,
    Assistant,
    Tool,
}

/// A tool invocation requested by the model.
#[derive(Debug)]
pub struct ToolCall {
    pub id: String,
    pub name: String,
    pub input: Json,
}

/// A tool call as mathematics.
pub struct ToolCallV {
    pub id: Seq<char>,
    pub name: Seq<char>,
    pub input: JsonV,
}

impl View for ToolCall {
    type V = ToolCallV;

    open spec fn view(&self) -> ToolCallV {
        ToolCallV { id: self.id@, name: self.name@, input: self.input@ }
    }
}

impl ToolCall {
    /// A copy of this call.
    pub fn duplicate(&self) -> (r: ToolCall)
        ensures
            r@ == self@,
    {
        ToolCall { id: self.id.clone(), name: self.name.clone(), input: self.input.deep_clone() }
    }
}

/// A tool the model may call: name, description and JSON-schema input.
#[derive(Debug)]
pub struct ToolSpec {
    pub name: String,
    pub description: String,
    pub input_schema: Json,
}

/// One message of a conversation. An assistant turn may carry the tool
/// calls it issued; a tool turn names the call it answers.
#[derive(Debug)]
pub struct Message {
    pub role: Role,
    pub content: String,
    pub tool_calls: Vec<ToolCall>,
    pub tool_call_id: Option<String>,
}

/// A message as mathematics.
pub struct MessageV {
    pub role: Role,
    pub content: Seq<char>,
    pub tool_calls: Seq<ToolCallV>,
    pub tool_call_id: Option<Seq<char>>,
}

impl View for Message {
    type V = MessageV;

    open spec fn view(&self) -> MessageV {
        MessageV {
            role: self.role,
            content: self.content@,
            tool_calls: self.tool_calls@.map_values(|c: ToolCall| c@),
            tool_call_id: opt_view(self.tool_call_id),
        }
    }
}

impl Message {
    /// A copy of this message.
    pub fn duplicate(&self) -> (r: Message)
        ensures
            r@ == self@,
    {
        let mut calls: Vec<ToolCall> = Vec::new();
        let mut i: usize = 0;
        while i < self.tool_calls.len()
            invariant
                i <= self.tool_calls@.len(),
                calls@.map_values(|c: ToolCall| c@) =~= self.tool_calls@.take(i as int).map_values(
                    |c: ToolCall| c@,
                ),
            decreases self.tool_calls@.len() - i,
        {
            let c = self.tool_calls[i].duplicate();
            let ghost before = calls@;
            calls.push(c);
            assert(self.tool_calls@.take(i + 1).map_values(|c: ToolCall| c@) =~= self.tool_calls@.take(
                i as int,
            ).map_values(|c: ToolCall| c@).push(self.tool_calls@[i as int]@));
            assert(calls@.map_values(|c: ToolCall| c@) =~= before.map_values(|c: ToolCall| c@).push(c@));
            i = i + 1;
        }
        assert(self.tool_calls@.take(self.tool_calls@.len() as int) =~= self.tool_calls@);
        let id = match &self.tool_call_id {
            Some(s) => Some(s.clone()),
            None => None,
        };
        let r = Message { role: self.role, content: self.content.clone(), tool_calls: calls, tool_call_id: id };
        assert(r@.tool_calls =~= self@.tool_calls);
        r
    }

    /// A plain message with no tool calls.
    pub fn new(role: Role, content: String) -> (m: Message)
        ensures
            m.role == role,
            m.content@ == content@,
            m.tool_calls@.len() == 0,
            m.tool_call_id is None,
    {
        Message { role, content, tool_calls: Vec::new(), tool_call_id: None }
    }
}

/// Token counts a provider reports; absent counts stay `None`.
#[derive(Debug, Clone, Copy, PartialEq, Eq)]
pub struct UsageSummary {
    pub input_tokens: Option<u32>,
    pub output_tokens: Option<u32>,
    pub cache_read_input_tokens: Option<u32>,
    pub cache_creation_input_tokens: Option<u32>,
}

impl Default for UsageSummary {
    fn default() -> (r: Self)
        ensures
            r.input_tokens is None,
            r.output_tokens is None,
            r.cache_read_input_tokens is None,
            r.cache_creation_input_tokens is None,
    {
        UsageSummary {
            input_tokens: None,
            output_tokens: None,
            cache_read_input_tokens: None,
            cache_creation_input_tokens: None,
        }
    }
}

/// One streamed piece of a model reply.
#[derive(Debug)]
pub enum ChatChunk {
    /// A piece of assistant text.
    Text(String),
    /// A complete tool call.
    ToolCall(ToolCall),
    /// The model stopped; usage if the provider reported it.
    End { usage: Option<UsageSummary> },
}

/// A chat chunk as mathematics.
pub enum ChatChunkV {
    Text(Seq<char>),
    ToolCall(ToolCallV),
    End(Option<UsageSummary>),
}

impl View for ChatChunk {
    type V = ChatChunkV;

    open spec fn view(&self) -> ChatChunkV {
        match self {
            ChatChunk::Text(s) => ChatChunkV::Text(s@),
            ChatChunk::ToolCall(c) => ChatChunkV::ToolCall(c@),
            ChatChunk::End { usage } => ChatChunkV::End(*usage),
        }
    }
}

/// Sum of two optional counts: present when either side is.
pub open spec fn sum_opt_spec(a: Option<u32>, b: Option<u32>) -> Option<int> {
    match (a, b) {
        (Some(x), Some(y)) => Some(x + y),
        (Some(x), None) => Some(x as int),
        (None, Some(y)) => Some(y as int),
        (None, None) => None,
    }
}

/// Whether adding two optional counts stays within `u32`.
pub open spec fn sum_fits(a: Option<u32>, b: Option<u32>) -> bool {
    match (a, b) {
        (Some(x), Some(y)) => x + y <= u32::MAX,
        _ => true,
    }
}

/// Add two optional token counts; `None` is "not reported".
pub fn sum_opt(a: Option<u32>, b: Option<u32>) -> (r: Option<u32>)
    requires
        sum_fits(a, b),
    ensures
        match r {
            Some(x) => sum_opt_spec(a, b) == Some(x as int),
            None => sum_opt_spec(a, b) is None,
        },
{
    match (a, b) {
        (Some(a), Some(b)) => Some(a + b),
        (Some(a), None) => Some(a),
        (None, Some(b)) => Some(b),
        (None, None) => None,
    }
}

/// Whether `a + b`, field by field, stays within `u32`.
pub open spec fn usage_fits(a: UsageSummary, b: UsageSummary) -> bool {
    &&& sum_fits(a.input_tokens, b.input_tokens)
    &&& sum_fits(a.output_tokens, b.output_tokens)
    &&& sum_fits(a.cache_read_input_tokens, b.cache_read_input_tokens)
    &&& sum_fits(a.cache_creation_input_tokens, b.cache_creation_input_tokens)
}

/// The field-wise sum of two usage reports.
pub open spec fn usage_sum(a: UsageSummary, b: UsageSummary, r: UsageSummary) -> bool {
    &&& sum_opt_spec(a.input_tokens, b.input_tokens) == opt_int(r.input_tokens)
    &&& sum_opt_spec(a.output_tokens, b.output_tokens) == opt_int(r.output_tokens)
    &&& sum_opt_spec(a.cache_read_input_tokens, b.cache_read_input_tokens) == opt_int(
        r.cache_read_input_tokens,
    )
    &&& sum_opt_spec(a.cache_creation_input_tokens, b.cache_creation_input_tokens) == opt_int(
        r.cache_creation_input_tokens,
    )
}

pub open spec fn opt_int(a: Option<u32>) -> Option<int> {
    match a {
        Some(x) => Some(x as int),
        None => None,
    }
}

impl UsageSummary {
    /// Whether `self.add(other)` stays within `u32` on every field.
    pub fn can_add(&self, other: &UsageSummary) -> (r: bool)
        ensures
            r == usage_fits(*self, *other),
    {
        fits(self.input_tokens, other.input_tokens) && fits(self.output_tokens, other.output_tokens)
            && fits(self.cache_read_input_tokens, other.cache_read_input_tokens) && fits(
            self.cache_creation_input_tokens,
            other.cache_creation_input_tokens,
        )
    }

    /// Field-wise sum of two usage reports.
    pub fn add(&self, other: &UsageSummary) -> (r: UsageSummary)
        requires
            usage_fits(*self, *other),
        ensures
            usage_sum(*self, *other, r),
    {
        UsageSummary {
            input_tokens: sum_opt(self.input_tokens, other.input_tokens),
            output_tokens: sum_opt(self.output_tokens, other.output_tokens),
            cache_read_input_tokens: sum_opt(
                self.cache_read_input_tokens,
                other.cache_read_input_tokens,
            ),
            cache_creation_input_tokens: sum_opt(
                self.cache_creation_input_tokens,
                other.cache_creation_input_tokens,
            ),
        }
    }
}

fn fits(a: Option<u32>, b: Option<u32>) -> (r: bool)
    ensures
        r == sum_fits(a, b),
{
    match (a, b) {
        (Some(x), Some(y)) => x <= u32::MAX - y,
        _ => true,
    }
}

/// The supported providers.
#[derive(Debug, Clone, Copy, PartialEq, Eq, Structural)]
pub enum LlmProviderKind {
    Anthropic,
    Ollama,
}

/// What the user configured at the settings page.
#[derive(Debug)]
pub struct LlmConfig {
    pub provider: LlmProviderKind,
    pub model: String,
    /// Required for Ollama (defaults to the local server); ignored for
    /// Anthropic.
    pub base_url: Option<String>,
}

/// What the settings page shows about the provider.
#[derive(Debug)]
pub struct LlmStatus {
    pub configured: bool,
    pub provider: Option<LlmProviderKind>,
    pub model: Option<String>,
    /// Whether a key is stored for the configured provider.
    pub key_present: bool,
}

impl LlmStatus {
    /// The status for the active configuration, if any.
    pub fn for_config(config: Option<&LlmConfig>, key_present: bool) -> (s: LlmStatus)
        ensures
            s.configured == config is Some,
            s.key_present == key_present,
            match config {
                Some(c) => s.provider == Some(c.provider) && opt_view(s.model) == Some(c.model@),
                None => s.provider is None && s.model is None,
            },
    {
        match config {
            Some(c) => LlmStatus {
                configured: true,
                provider: Some(c.provider),
                model: Some(c.model.clone()),
                key_present,
            },
            None => LlmStatus { configured: false, provider: None, model: None, key_present },
        }
    }
}

/// A provider ready to be built: its kind and settings, checked.
#[derive(Debug)]
pub enum ProviderPlan {
    Anthropic { model: String, api_key: String },
    Ollama { model: String, base_url: String },
}

pub open spec fn default_ollama_url() -> Seq<char> {
    seq![
        'h', 't', 't', 'p', ':', '/', '/', 'l', 'o', 'c', 'a', 'l', 'h', 'o', 's', 't', ':', '1',
        '1', '4', '3', '4',
    ]
}

/// `s` without its trailing `/` chars.
pub open spec fn trim_end_slashes(s: Seq<char>) -> Seq<char>
    decreases s.len(),
{
    if s.len() > 0 && s.last() == '/' {
        trim_end_slashes(s.drop_last())
    } else {
        s
    }
}

pub fn default_ollama_base_url() -> (s: String)
    ensures
        s@ == default_ollama_url(),
{
    let s = "http://localhost:11434".to_owned();
    proof {
        reveal_strlit("http://localhost:11434");
    }
    assert(s@ =~= default_ollama_url());
    s
}

/// Check a provider configuration: Anthropic needs a non-empty API key;
/// Ollama needs a non-empty base URL (the local server by default), kept
/// without trailing slashes.
pub fn plan_provider(config: &LlmConfig, api_key: Option<String>) -> (r: Result<ProviderPlan, String>)
    ensures
        match config.provider {
            LlmProviderKind::Anthropic => match api_key {
                None => r matches Err(e) && e@ == "anthropic provider requires an api key"@,
                Some(k) => if k@.len() == 0 {
                    r matches Err(e) && e@ == "anthropic api key is empty"@
                } else {
                    r matches Ok(ProviderPlan::Anthropic { model, api_key: k2 }) && model@
                        == config.model@ && k2@ == k@
                },
            },
            LlmProviderKind::Ollama => {
                let url = match config.base_url {
                    Some(u) => u@,
                    None => default_ollama_url(),
                };
                if url.len() == 0 {
                    r matches Err(e) && e@ == "ollama base_url is empty"@
                } else {
                    r matches Ok(ProviderPlan::Ollama { model, base_url }) && model@
                        == config.model@ && base_url@ == trim_end_slashes(url)
                }
            },
        },
{
    match config.provider {
        LlmProviderKind::Anthropic => match api_key {
            None => Err("anthropic provider requires an api key".to_owned()),
            Some(k) => {
                let kv = chars_of(k.as_str());
                if kv.len() == 0 {
                    Err("anthropic api key is empty".to_owned())
                } else {
                    Ok(ProviderPlan::Anthropic { model: config.model.clone(), api_key: k })
                }
            },
        },
        LlmProviderKind::Ollama => {
            let url = match &config.base_url {
                Some(u) => u.clone(),
                None => default_ollama_base_url(),
            };
            let v = chars_of(url.as_str());
            if v.len() == 0 {
                Err("ollama base_url is empty".to_owned())
            } else {
                let mut end = v.len();
                assert(v@.take(v@.len() as int) == v@);
                while end > 0 && v[end - 1] == '/'
                    invariant
                        end <= v@.len(),
                        trim_end_slashes(v@) == trim_end_slashes(v@.take(end as int)),
                    decreases end,
                {
                    assert(v@.take(end as int).drop_last() == v@.take(end - 1));
                    end = end - 1;
                }
                assert(v@.take(v@.len() as int) == v@);
                let base = string_from_chars(&v[0..end]);
                assert(v@.subrange(0, end as int) == v@.take(end as int));
                Ok(ProviderPlan::Ollama { model: config.model.clone(), base_url: base })
            }
        },
    }
}

} // verus!
