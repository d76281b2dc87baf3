use pf2e_companion::json::{Json, JsonNumber};
use pf2e_companion::llm::{
    plan_provider, sum_opt, ChatChunk, LlmConfig, LlmProviderKind, LlmStatus, Message, ProviderPlan, Role,
    ToolCall, UsageSummary,
};
use pf2e_companion::llm_tools::{
    route_tool, tool_outcome, tool_specs, AgentEvent, AgentLoop, StreamEnd, ToolRequest, MAX_ITERATIONS, TOOL_IDS,
};
use pf2e_companion::sse::{parse_sse_frame, SseBuffer};

fn s(x: &str) -> Json {
    Json::String(x.to_string())
}

fn n(x: i64) -> Json {
    Json::Number(JsonNumber::from_i64(x))
}

fn obj(entries: Vec<(&str, Json)>) -> Json {
    Json::Object(entries.into_iter().map(|(k, v)| (k.to_string(), v)).collect())
}

fn field<'a>(j: &'a Json, k: &str) -> Option<&'a Json> {
    j.get(k)
}

fn call(id: &str, name: &str, input: Json) -> ToolCall {
    ToolCall { id: id.to_string(), name: name.to_string(), input }
}

#[test]
fn sum_opt_combines_both_sides() {
    assert_eq!(sum_opt(None, None), None);
    assert_eq!(sum_opt(Some(2), None), Some(2));
    assert_eq!(sum_opt(None, Some(3)), Some(3));
    assert_eq!(sum_opt(Some(2), Some(3)), Some(5));
}

#[test]
fn sse_buffer_splits_two_complete_frames() {
    let mut b = SseBuffer::default();
    let evs = b.push("event: a\ndata: {\"x\":1}\n\nevent: b\ndata: {\"x\":2}\n\n");
    assert_eq!(evs.len(), 2);
    assert_eq!(evs[0].event.as_deref(), Some("a"));
    assert_eq!(evs[0].data, r#"{"x":1}"#);
    assert_eq!(evs[1].event.as_deref(), Some("b"));
    assert_eq!(evs[1].data, r#"{"x":2}"#);
}

#[test]
fn sse_buffer_holds_partial_frame_until_blank_line() {
    let mut b = SseBuffer::default();
    let evs = b.push("event: a\ndata: {\"x\":1");
    assert!(evs.is_empty());
    let evs = b.push("23}\n\n");
    assert_eq!(evs.len(), 1);
    assert_eq!(evs[0].data, r#"{"x":123}"#);
}

#[test]
fn sse_buffer_handles_data_only_frames() {
    let mut b = SseBuffer::default();
    let evs = b.push("data: hello\n\n");
    assert_eq!(evs.len(), 1);
    assert_eq!(evs[0].event, None);
    assert_eq!(evs[0].data, "hello");
}

#[test]
fn sse_buffer_ignores_comments_and_blanks() {
    let mut b = SseBuffer::default();
    let evs = b.push(": this is a comment\nretry: 5000\n\n");
    assert!(evs.is_empty());
}

#[test]
fn sse_buffer_multi_line_data() {
    let mut b = SseBuffer::default();
    let evs = b.push("data: line one\ndata: line two\n\n");
    assert_eq!(evs.len(), 1);
    assert_eq!(evs[0].data, "line one\nline two");
}

#[test]
fn sse_buffer_replays_realistic_anthropic_stream() {
    let full = "event: message_start\ndata: {\"type\":\"message_start\",\"message\":{\"id\":\"msg_01\",\"role\":\"assistant\"}}\n\nevent: content_block_start\ndata: {\"type\":\"content_block_start\",\"index\":0}\n\nevent: content_block_delta\ndata: {\"type\":\"content_block_delta\",\"delta\":{\"type\":\"text_delta\",\"text\":\"Hello\"}}\n\nevent: content_block_delta\ndata: {\"type\":\"content_block_delta\",\"delta\":{\"type\":\"text_delta\",\"text\":\" world\"}}\n\nevent: content_block_stop\ndata: {\"type\":\"content_block_stop\",\"index\":0}\n\nevent: message_delta\ndata: {\"type\":\"message_delta\",\"usage\":{\"input_tokens\":12,\"output_tokens\":4}}\n\nevent: message_stop\ndata: {\"type\":\"message_stop\"}\n\n";
    let mut buf = SseBuffer::default();
    let mut events = Vec::new();
    for chunk in full.as_bytes().chunks(17) {
        let st = std::str::from_utf8(chunk).unwrap();
        events.extend(buf.push(st));
    }
    let event_names: Vec<_> = events.iter().map(|e| e.event.as_deref().unwrap_or("")).collect();
    assert_eq!(
        event_names,
        vec![
            "message_start",
            "content_block_start",
            "content_block_delta",
            "content_block_delta",
            "content_block_stop",
            "message_delta",
            "message_stop",
        ],
        "SSE parser must reproduce the full event sequence regardless of fragmentation",
    );
}

#[test]
fn sse_frame_crlf_and_event_trim() {
    let ev = parse_sse_frame("event:  ping \r\ndata:x\r\n").unwrap();
    assert_eq!(ev.event.as_deref(), Some("ping"));
    assert_eq!(ev.data, "x");
    assert!(parse_sse_frame("id: 7").is_none());
}

#[test]
fn tool_specs_lists_all_five_tools() {
    let specs = tool_specs();
    let names: Vec<&str> = specs.iter().map(|s| s.name.as_str()).collect();
    for id in TOOL_IDS.iter() {
        assert!(names.contains(id), "tool_specs missing `{id}`");
    }
}

#[test]
fn tool_specs_match_dispatch_table() {
    let specs = tool_specs();
    let names: Vec<&str> = specs.iter().map(|s| s.name.as_str()).collect();
    let mut expected: Vec<&str> = TOOL_IDS.to_vec();
    expected.sort();
    let mut got = names.clone();
    got.sort();
    assert_eq!(got, expected, "tool_specs matches TOOL_IDS exactly");
}

#[test]
fn tool_schemas_declare_required_args() {
    let specs = tool_specs();
    let xp = &specs[4];
    match field(&xp.input_schema, "required") {
        Some(Json::Array(items)) => {
            let names: Vec<&str> = items.iter().map(|j| j.as_str().unwrap()).collect();
            assert_eq!(names, vec!["party_size", "difficulty"]);
        }
        _ => panic!("required list"),
    }
    assert_eq!(field(&xp.input_schema, "type").and_then(|t| t.as_str()), Some("object"));
    assert!(specs[0].description.starts_with("Look up a PF2e legacy → Remaster name"));
}

#[test]
fn dispatch_routes_xp_budget() {
    let c = call("tool_1", "xp_budget", obj(vec![("party_size", n(4)), ("difficulty", s("moderate"))]));
    match route_tool(&c).unwrap() {
        ToolRequest::Answer(result) => {
            assert_eq!(field(&result, "xp_budget").and_then(|v| v.as_i64()), Some(80));
            assert_eq!(field(&result, "per_pc_adjust").and_then(|v| v.as_i64()), Some(20));
            assert_eq!(field(&result, "base_for_party_of_4").and_then(|v| v.as_i64()), Some(80));
            assert_eq!(field(&result, "difficulty").and_then(|v| v.as_str()), Some("moderate"));
            assert_eq!(field(&result, "party_size").and_then(|v| v.as_u64()), Some(4));
        }
        other => panic!("unexpected {other:?}"),
    }
}

#[test]
fn dispatch_routes_validate_statblock() {
    let c = call("tool_1", "validate_statblock", obj(vec![("statblock", obj(vec![("name", s("Fake")), ("level", n(5))]))]));
    match route_tool(&c).unwrap() {
        ToolRequest::Answer(result) => {
            assert!(field(&result, "valid").is_some());
            assert!(matches!(field(&result, "valid"), Some(Json::Bool(false))));
        }
        other => panic!("unexpected {other:?}"),
    }
}

#[test]
fn dispatch_routes_lookups() {
    match route_tool(&call("t", "lookup_alias", obj(vec![("name", s("Aasimar"))]))).unwrap() {
        ToolRequest::LookupAlias { name } => assert_eq!(name, "Aasimar"),
        other => panic!("unexpected {other:?}"),
    }
    match route_tool(&call("t", "lookup_miracle", obj(vec![("query", s("5000"))]))).unwrap() {
        ToolRequest::LookupMiracle { query } => assert_eq!(query, "5000"),
        other => panic!("unexpected {other:?}"),
    }
    match route_tool(&call("t", "search", obj(vec![("query", s("purgatory"))]))).unwrap() {
        ToolRequest::Search { query, lens } => {
            assert_eq!(query, "purgatory");
            assert_eq!(lens, "lewisian");
        }
        other => panic!("unexpected {other:?}"),
    }
}

#[test]
fn dispatch_unknown_tool_errors() {
    let err = route_tool(&call("t", "definitely_not_a_tool", obj(vec![]))).unwrap_err();
    assert!(err.contains("unknown tool"));
    assert_eq!(err, "unknown tool `definitely_not_a_tool`");
}

#[test]
fn dispatch_argument_errors() {
    assert_eq!(route_tool(&call("t", "lookup_alias", obj(vec![]))).unwrap_err(), "lookup_alias.name missing");
    assert_eq!(route_tool(&call("t", "search", obj(vec![("query", n(1))]))).unwrap_err(), "search.query missing");
    assert_eq!(route_tool(&call("t", "xp_budget", obj(vec![("difficulty", s("low"))]))).unwrap_err(), "xp_budget.party_size missing");
    assert_eq!(route_tool(&call("t", "xp_budget", obj(vec![("party_size", n(4))]))).unwrap_err(), "xp_budget.difficulty missing");
    assert_eq!(
        route_tool(&call("t", "xp_budget", obj(vec![("party_size", n(4)), ("difficulty", s("hard"))]))).unwrap_err(),
        "unknown variant `hard`, expected one of `trivial`, `low`, `moderate`, `severe`, `extreme`"
    );
    assert_eq!(
        route_tool(&call("t", "xp_budget", obj(vec![("party_size", n(13)), ("difficulty", s("low"))]))).unwrap_err(),
        "party_size 13 outside 1..=12"
    );
    assert_eq!(
        route_tool(&call("t", "xp_budget", obj(vec![("party_size", n(260)), ("difficulty", s("low"))]))).unwrap_err(),
        "party_size 260 outside 1..=12"
    );
    assert_eq!(route_tool(&call("t", "validate_statblock", obj(vec![]))).unwrap_err(), "validate_statblock.statblock missing");
}

fn usage(i: u32, o: u32) -> UsageSummary {
    UsageSummary { input_tokens: Some(i), output_tokens: Some(o), ..Default::default() }
}

fn feed(st: &mut AgentLoop, chunks: Vec<ChatChunk>, events: &mut Vec<AgentEvent>) {
    for c in chunks {
        assert!(st.accepts(&c));
        if let Some(ev) = st.on_chunk(c) {
            events.push(ev);
        }
    }
}

#[test]
fn agent_loop_runs_one_tool_then_finalizes() {
    let mut st = AgentLoop::new(vec![Message::new(Role::User, "Build a moderate encounter for 4 PCs at level 6.".to_string())]);
    let mut events = Vec::new();
    st.start_iteration().unwrap();
    feed(
        &mut st,
        vec![
            ChatChunk::Text("Let me check the budget. ".to_string()),
            ChatChunk::ToolCall(call("call_xp_1", "xp_budget", obj(vec![("party_size", n(4)), ("difficulty", s("moderate"))]))),
            ChatChunk::End { usage: Some(usage(100, 20)) },
        ],
        &mut events,
    );
    let calls = match st.finish_stream() {
        StreamEnd::RunTools(calls) => calls,
        other => panic!("expected tool calls, got {other:?}"),
    };
    assert_eq!(calls.len(), 1);
    for c in &calls {
        let answer = match route_tool(c) {
            Ok(ToolRequest::Answer(v)) => Ok(v),
            Ok(other) => panic!("unexpected {other:?}"),
            Err(e) => Err(e),
        };
        let (value, is_err) = tool_outcome(answer);
        events.push(st.record_tool_result(c, value, is_err, "{\"xp_budget\":80}".to_string()));
    }
    assert_eq!(st.messages.len(), 3);
    assert_eq!(st.messages[1].role, Role::Assistant);
    assert_eq!(st.messages[1].tool_calls.len(), 1);
    assert_eq!(st.messages[1].content, "Let me check the budget. ");
    assert_eq!(st.messages[2].role, Role::Tool);
    assert_eq!(st.messages[2].tool_call_id.as_deref(), Some("call_xp_1"));
    st.start_iteration().unwrap();
    feed(
        &mut st,
        vec![ChatChunk::Text("A moderate encounter for 4 PCs is 80 XP.".to_string()), ChatChunk::End { usage: Some(usage(50, 10)) }],
        &mut events,
    );
    match st.finish_stream() {
        StreamEnd::Done(AgentEvent::End { usage, iterations }) => {
            assert_eq!(iterations, 2);
            assert_eq!(usage.input_tokens, Some(150));
            assert_eq!(usage.output_tokens, Some(30));
            assert_eq!(usage.cache_read_input_tokens, None);
        }
        other => panic!("expected the end, got {other:?}"),
    }
    let text: String = events
        .iter()
        .filter_map(|e| match e {
            AgentEvent::Text(t) => Some(t.as_str()),
            _ => None,
        })
        .collect();
    assert!(text.contains("Let me check the budget"));
    assert!(text.contains("80 XP"));
    let result = events.iter().find_map(|e| match e {
        AgentEvent::ToolResult { name, result, error, .. } => Some((name.clone(), result.as_i64(), *error, field(result, "xp_budget").and_then(|v| v.as_i64()))),
        _ => None,
    });
    assert_eq!(result, Some(("xp_budget".to_string(), None, false, Some(80))));
}

#[test]
fn agent_loop_caps_at_max_iterations() {
    let mut st = AgentLoop::new(vec![Message::new(Role::User, "loop forever pls".to_string())]);
    let mut events = Vec::new();
    let mut cap = None;
    for k in 0..(MAX_ITERATIONS + 2) {
        if let Err(e) = st.start_iteration() {
            cap = Some(e);
            break;
        }
        feed(
            &mut st,
            vec![
                ChatChunk::ToolCall(call(&format!("call_{k}"), "xp_budget", obj(vec![("party_size", n(4)), ("difficulty", s("moderate"))]))),
                ChatChunk::End { usage: None },
            ],
            &mut events,
        );
        if let StreamEnd::RunTools(calls) = st.finish_stream() {
            for c in &calls {
                let (v, e) = tool_outcome(Err("x".to_string()));
                st.record_tool_result(c, v, e, "{}".to_string());
            }
        }
    }
    let cap = cap.expect("agent should hit the iteration cap");
    assert!(cap.contains("iteration cap"), "unexpected error: {cap}");
    assert_eq!(cap, "agent hit the 5-iteration cap; aborting");
    assert_eq!(st.iterations, MAX_ITERATIONS + 1);
}

#[test]
fn agent_loop_recovers_from_tool_error() {
    let mut st = AgentLoop::new(vec![Message::new(Role::User, "do stuff".to_string())]);
    let mut events = Vec::new();
    st.start_iteration().unwrap();
    feed(&mut st, vec![ChatChunk::ToolCall(call("bad_call", "not_a_real_tool", obj(vec![]))), ChatChunk::End { usage: None }], &mut events);
    if let StreamEnd::RunTools(calls) = st.finish_stream() {
        for c in &calls {
            let outcome = route_tool(c).map(|_| Json::Null);
            let (v, e) = tool_outcome(outcome);
            events.push(st.record_tool_result(c, v, e, "{\"error\":\"unknown tool `not_a_real_tool`\"}".to_string()));
        }
    } else {
        panic!("tool round expected");
    }
    st.start_iteration().unwrap();
    feed(&mut st, vec![ChatChunk::Text("Sorry, that tool isn't available.".to_string()), ChatChunk::End { usage: None }], &mut events);
    assert!(matches!(st.finish_stream(), StreamEnd::Done(AgentEvent::End { iterations: 2, .. })));
    let tool_result = events
        .iter()
        .find_map(|e| match e {
            AgentEvent::ToolResult { error, result, .. } => Some((*error, field(result, "error").and_then(|v| v.as_str()).map(str::to_string))),
            _ => None,
        })
        .expect("tool result event present");
    assert!(tool_result.0, "error flag set");
    assert_eq!(tool_result.1.as_deref(), Some("unknown tool `not_a_real_tool`"));
}

#[test]
fn provider_plans() {
    let anth = LlmConfig { provider: LlmProviderKind::Anthropic, model: "sonnet-test-model".to_string(), base_url: None };
    let err = match plan_provider(&anth, None) {
        Err(e) => e,
        Ok(p) => panic!("anthropic without an api key must fail: {p:?}"),
    };
    assert!(err.contains("api key"));
    assert!(matches!(plan_provider(&anth, Some(String::new())), Err(e) if e == "anthropic api key is empty"));
    assert!(matches!(plan_provider(&anth, Some("sk-ant-fake".to_string())), Ok(ProviderPlan::Anthropic { .. })));
    let oll = LlmConfig { provider: LlmProviderKind::Ollama, model: "qwen3:4b".to_string(), base_url: Some("http://localhost:11434//".to_string()) };
    match plan_provider(&oll, None) {
        Ok(ProviderPlan::Ollama { base_url, model }) => {
            assert_eq!(base_url, "http://localhost:11434");
            assert_eq!(model, "qwen3:4b");
        }
        other => panic!("unexpected {other:?}"),
    }
    let empty = LlmConfig { provider: LlmProviderKind::Ollama, model: "qwen3:4b".to_string(), base_url: Some(String::new()) };
    let e = plan_provider(&empty, None).unwrap_err();
    assert!(e.contains("base_url") && e.contains("empty"));
    let dflt = LlmConfig { provider: LlmProviderKind::Ollama, model: "m".to_string(), base_url: None };
    assert!(matches!(plan_provider(&dflt, None), Ok(ProviderPlan::Ollama { base_url, .. }) if base_url == "http://localhost:11434"));
}

#[test]
fn status_reports_config() {
    let st = LlmStatus::for_config(None, false);
    assert!(!st.configured);
    assert_eq!(st.provider, None);
    let c = LlmConfig { provider: LlmProviderKind::Ollama, model: "qwen3:4b".to_string(), base_url: None };
    let st = LlmStatus::for_config(Some(&c), true);
    assert!(st.configured && st.key_present);
    assert_eq!(st.model.as_deref(), Some("qwen3:4b"));
    assert_eq!(st.provider, Some(LlmProviderKind::Ollama));
}

#[test]
fn usage_addition() {
    let a = UsageSummary { input_tokens: Some(1), output_tokens: None, cache_read_input_tokens: Some(7), cache_creation_input_tokens: None };
    let b = UsageSummary { input_tokens: Some(2), output_tokens: Some(3), cache_read_input_tokens: None, cache_creation_input_tokens: None };
    assert!(a.can_add(&b));
    let c = a.add(&b);
    assert_eq!(c.input_tokens, Some(3));
    assert_eq!(c.output_tokens, Some(3));
    assert_eq!(c.cache_read_input_tokens, Some(7));
    assert_eq!(c.cache_creation_input_tokens, None);
    let big = UsageSummary { input_tokens: Some(u32::MAX), ..Default::default() };
    assert!(!big.can_add(&a));
}

#[test]
fn dispatch_routes_lookup_alias() {
    match route_tool(&call("t", "lookup_alias", obj(vec![("name", s("Aasimar"))]))).unwrap() {
        ToolRequest::LookupAlias { name } => assert_eq!(name, "Aasimar"),
        other => panic!("unexpected {other:?}"),
    }
}

#[test]
fn dispatch_routes_lookup_miracle() {
    match route_tool(&call("t", "lookup_miracle", obj(vec![("query", s("5000"))]))).unwrap() {
        ToolRequest::LookupMiracle { query } => assert_eq!(query, "5000"),
        other => panic!("unexpected {other:?}"),
    }
}

fn ollama_config(model: &str, base_url: &str) -> LlmConfig {
    LlmConfig { provider: LlmProviderKind::Ollama, model: model.to_string(), base_url: Some(base_url.to_string()) }
}

fn anthropic_config(model: &str) -> LlmConfig {
    LlmConfig { provider: LlmProviderKind::Anthropic, model: model.to_string(), base_url: None }
}

#[test]
fn registry_starts_empty() {
    let st = LlmStatus::for_config(None, false);
    assert!(!st.configured);
    assert!(st.provider.is_none());
    assert!(st.model.is_none());
}

#[test]
fn registry_configure_ollama_then_clear() {
    let c = ollama_config("qwen3:4b", "http://localhost:11434");
    assert!(plan_provider(&c, None).is_ok(), "ollama config without api key should succeed");
    let st = LlmStatus::for_config(Some(&c), false);
    assert!(st.configured);
    assert_eq!(st.provider, Some(LlmProviderKind::Ollama));
    assert_eq!(st.model.as_deref(), Some("qwen3:4b"));
    assert!(!st.key_present);
    let st = LlmStatus::for_config(None, false);
    assert!(!st.configured);
    assert!(st.provider.is_none());
}

#[test]
fn registry_configure_anthropic_requires_key() {
    let err = plan_provider(&anthropic_config("sonnet-4-6"), None).expect_err("anthropic without an api key must fail");
    let msg = err.to_lowercase();
    assert!(msg.contains("api key") || msg.contains("anthropic"), "error mentions api key requirement, got: {msg}");
}

#[test]
fn registry_configure_anthropic_succeeds_with_key() {
    let c = anthropic_config("sonnet-4-6");
    let plan = plan_provider(&c, Some("sk-ant-fake-test-key".to_string()))
        .expect("anthropic config with a key should succeed (no network call)");
    assert!(matches!(plan, ProviderPlan::Anthropic { ref api_key, .. } if api_key == "sk-ant-fake-test-key"));
    let st = LlmStatus::for_config(Some(&c), true);
    assert!(st.configured);
    assert_eq!(st.provider, Some(LlmProviderKind::Anthropic));
    assert!(st.key_present);
}

#[test]
fn registry_reconfigure_swaps_provider() {
    let first = plan_provider(&ollama_config("qwen3:4b", "http://localhost:11434"), None).unwrap();
    assert!(matches!(first, ProviderPlan::Ollama { .. }));
    let second = plan_provider(&anthropic_config("haiku-4-5-20251001"), Some("sk-ant-fake".to_string())).unwrap();
    assert!(matches!(second, ProviderPlan::Anthropic { .. }));
}

#[test]
fn ollama_provider_rejects_empty_base_url() {
    let err = plan_provider(&ollama_config("qwen3:4b", ""), None).expect_err("empty base_url should fail");
    let msg = err.to_lowercase();
    assert!(msg.contains("base_url") || msg.contains("empty"), "error mentions empty base_url, got: {msg}");
}

#[test]
fn sse_crlf_blank_lines_end_frames() {
    let mut b = SseBuffer::default();
    let evs = b.push("data: x\r\n\r\n");
    assert_eq!(evs.len(), 1);
    assert_eq!(evs[0].event, None);
    assert_eq!(evs[0].data, "x");
    let evs = b.push("event: a\r\ndata: 1\r\n\r");
    assert!(evs.is_empty());
    let evs = b.push("\nevent: b\ndata: 2\r\n\ndata: 3\n\r\n");
    let got: Vec<(Option<&str>, &str)> = evs.iter().map(|e| (e.event.as_deref(), e.data.as_str())).collect();
    assert_eq!(got, vec![(Some("a"), "1"), (Some("b"), "2"), (None, "3")]);
}

#[test]
fn xp_budget_party_size_is_not_wrapped() {
    let c = call("t", "xp_budget", obj(vec![("party_size", n(260)), ("difficulty", s("moderate"))]));
    assert_eq!(route_tool(&c).unwrap_err(), "party_size 260 outside 1..=12");
    let c = call("t", "xp_budget", obj(vec![("party_size", n(0)), ("difficulty", s("moderate"))]));
    assert_eq!(route_tool(&c).unwrap_err(), "party_size 0 outside 1..=12");
    let c = call("t", "xp_budget", obj(vec![("party_size", n(12)), ("difficulty", s("moderate"))]));
    assert!(route_tool(&c).is_ok());
}
