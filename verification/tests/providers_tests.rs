use pf2e_companion::anthropic::{
    hoist_system, message_to_anthropic_block, request_body, system_field, tool_input_error, AnthropicDelta,
    AnthropicEvent, ContentBlockMeta, Decoded, ToolBuffer,
};
use pf2e_companion::json::Json;
use pf2e_companion::llm::{ChatChunk, Message, Role, ToolCall, UsageSummary};
use pf2e_companion::ollama::{chat_body, line_chunks, line_error, NdjsonBuffer, OllamaChatResponse};

fn get<'a>(j: &'a Json, k: &str) -> &'a Json {
    j.get(k).unwrap()
}

fn ev(index: Option<u32>) -> AnthropicEvent {
    AnthropicEvent { delta: None, usage: None, message_usage: None, index, content_block: None }
}

#[test]
fn system_messages_are_hoisted() {
    let msgs = vec![
        Message::new(Role::System, "Extra rules.".to_string()),
        Message::new(Role::User, "Hi".to_string()),
        Message::new(Role::System, "More.".to_string()),
    ];
    let (sys, kept) = hoist_system(&msgs, Some("Base.".to_string()));
    assert_eq!(sys.as_deref(), Some("Base.\n\nExtra rules.\n\nMore."));
    assert_eq!(kept.len(), 1);
    assert_eq!(kept[0].content, "Hi");
    let (sys, _) = hoist_system(&msgs, None);
    assert_eq!(sys.as_deref(), Some("Extra rules.\n\nMore."));
}

#[test]
fn system_field_shapes() {
    assert!(matches!(system_field(&None, true), Json::Null));
    assert!(matches!(system_field(&Some("S".to_string()), false), Json::String(t) if t == "S"));
    match system_field(&Some("S".to_string()), true) {
        Json::Array(blocks) => {
            assert_eq!(blocks.len(), 1);
            assert_eq!(get(get(&blocks[0], "cache_control"), "type").as_str(), Some("ephemeral"));
            assert_eq!(get(&blocks[0], "text").as_str(), Some("S"));
        }
        _ => panic!("array expected"),
    }
}

#[test]
fn assistant_turn_with_tool_calls() {
    let mut m = Message::new(Role::Assistant, "Checking.".to_string());
    m.tool_calls.push(ToolCall { id: "c1".to_string(), name: "xp_budget".to_string(), input: Json::Object(vec![]) });
    let j = message_to_anthropic_block(&m);
    assert_eq!(get(&j, "role").as_str(), Some("assistant"));
    match get(&j, "content") {
        Json::Array(blocks) => {
            assert_eq!(blocks.len(), 2);
            assert_eq!(get(&blocks[0], "type").as_str(), Some("text"));
            assert_eq!(get(&blocks[1], "type").as_str(), Some("tool_use"));
            assert_eq!(get(&blocks[1], "id").as_str(), Some("c1"));
        }
        _ => panic!("blocks expected"),
    }
    let mut t = Message::new(Role::Tool, "{}".to_string());
    t.tool_call_id = Some("c1".to_string());
    let j = message_to_anthropic_block(&t);
    assert_eq!(get(&j, "role").as_str(), Some("user"));
    match get(&j, "content") {
        Json::Array(blocks) => assert_eq!(get(&blocks[0], "tool_use_id").as_str(), Some("c1")),
        _ => panic!("blocks expected"),
    }
    let j = message_to_anthropic_block(&Message::new(Role::System, "x".to_string()));
    assert_eq!(get(&j, "role").as_str(), Some("user"));
}

#[test]
fn request_body_fields() {
    let msgs = vec![Message::new(Role::User, "Hi".to_string())];
    let b = request_body("sonnet-test-model", None, None, false, &msgs, &Vec::new());
    assert_eq!(get(&b, "max_tokens").as_u64(), Some(2048));
    assert_eq!(get(&b, "model").as_str(), Some("sonnet-test-model"));
    assert!(matches!(get(&b, "stream"), Json::Bool(true)));
    assert!(b.get("system").is_none());
    assert!(b.get("tools").is_none());
    let b = request_body("m", Some(100), Some("S".to_string()), false, &msgs, &pf2e_companion::llm_tools::tool_specs());
    assert_eq!(get(&b, "max_tokens").as_u64(), Some(100));
    assert_eq!(get(&b, "system").as_str(), Some("S"));
    assert!(matches!(get(&b, "tools"), Json::Array(t) if t.len() == 5));
}

#[test]
fn tool_call_streamed_in_fragments() {
    let mut buf = ToolBuffer::new();
    let start = AnthropicEvent {
        content_block: Some(ContentBlockMeta { kind: Some("tool_use".to_string()), id: Some("toolu_1".to_string()), name: Some("search".to_string()) }),
        ..ev(Some(1))
    };
    assert!(matches!(buf.decode_event("content_block_start", Ok(start)), Decoded::Nothing));
    for part in ["{\"query\":", "\"purgatory\"}"] {
        let d = AnthropicEvent { delta: Some(AnthropicDelta { text: None, partial_json: Some(part.to_string()) }), ..ev(Some(1)) };
        assert!(matches!(buf.decode_event("content_block_delta", Ok(d)), Decoded::Nothing));
    }
    match buf.decode_event("content_block_stop", Ok(ev(Some(1)))) {
        Decoded::ToolInput { id, name, json } => {
            assert_eq!(id, "toolu_1");
            assert_eq!(name, "search");
            assert_eq!(json, "{\"query\":\"purgatory\"}");
        }
        other => panic!("unexpected {other:?}"),
    }
    assert!(buf.slots.is_empty());
    assert!(matches!(buf.decode_event("content_block_stop", Ok(ev(Some(1)))), Decoded::Nothing));
}

#[test]
fn empty_tool_input_reads_as_empty_object() {
    let mut buf = ToolBuffer::new();
    let start = AnthropicEvent {
        content_block: Some(ContentBlockMeta { kind: Some("tool_use".to_string()), id: None, name: Some("t".to_string()) }),
        ..ev(Some(0))
    };
    buf.decode_event("content_block_start", Ok(start));
    match buf.decode_event("content_block_stop", Ok(ev(Some(0)))) {
        Decoded::Chunk(ChatChunk::ToolCall(c)) => {
            assert_eq!(c.id, "");
            assert!(matches!(c.input, Json::Object(ref es) if es.is_empty()));
        }
        other => panic!("unexpected {other:?}"),
    }
}

#[test]
fn text_usage_and_errors() {
    let mut buf = ToolBuffer::new();
    let d = AnthropicEvent { delta: Some(AnthropicDelta { text: Some("Hello".to_string()), partial_json: None }), ..ev(Some(0)) };
    assert!(matches!(buf.decode_event("content_block_delta", Ok(d)), Decoded::Chunk(ChatChunk::Text(t)) if t == "Hello"));
    assert!(matches!(buf.decode_event("content_block_delta", Err("EOF".to_string())), Decoded::Failed(e) if e == "anthropic decode: EOF"));
    let u = UsageSummary { input_tokens: Some(12), output_tokens: Some(4), ..Default::default() };
    let md = AnthropicEvent { usage: Some(u), ..ev(None) };
    assert!(matches!(buf.decode_event("message_delta", Ok(md)), Decoded::Nothing));
    let ms = AnthropicEvent { usage: Some(u), ..ev(None) };
    assert!(matches!(buf.decode_event("message_stop", Ok(ms)), Decoded::Chunk(ChatChunk::End { usage: Some(x) }) if x.input_tokens == Some(12)));
    assert!(matches!(buf.decode_event("message_stop", Err("bad".to_string())), Decoded::Chunk(ChatChunk::End { usage: None })));
    assert!(matches!(buf.decode_event("ping", Ok(ev(None))), Decoded::Nothing));
    assert_eq!(tool_input_error("{x", "EOF"), "anthropic tool_use input json decode (`{x`): EOF");
}

#[test]
fn ollama_body_and_lines() {
    let msgs = vec![Message::new(Role::User, "Hi".to_string())];
    let b = chat_body("qwen3:4b", None, &Some("Sys".to_string()), &msgs);
    match get(&b, "messages") {
        Json::Array(ms) => {
            assert_eq!(ms.len(), 2);
            assert_eq!(get(&ms[0], "role").as_str(), Some("system"));
            assert_eq!(get(&ms[1], "content").as_str(), Some("Hi"));
        }
        _ => panic!("messages"),
    }
    assert_eq!(get(get(&b, "options"), "num_predict").as_u64(), Some(2048));
    let mut nd = NdjsonBuffer::new();
    assert!(nd.push("{\"a\":1}\n  \n{\"b\"").len() == 1);
    let lines = nd.push(":2}\r\n");
    assert_eq!(lines, vec!["{\"b\":2}".to_string()]);
    let done = OllamaChatResponse { message_content: Some(String::new()), done: true, prompt_eval_count: Some(3), eval_count: Some(9) };
    let cs = line_chunks(done);
    assert_eq!(cs.len(), 1);
    assert!(matches!(cs[0], ChatChunk::End { usage: Some(u) } if u.input_tokens == Some(3) && u.output_tokens == Some(9)));
    let part = OllamaChatResponse { message_content: Some("Hel".to_string()), done: false, prompt_eval_count: None, eval_count: None };
    assert!(matches!(&line_chunks(part)[..], [ChatChunk::Text(t)] if t == "Hel"));
    assert_eq!(line_error("xx", "expected value"), "ollama decode `xx`: expected value");
}

#[test]
fn stream_usage_reaches_the_end_chunk() {
    let mut buf = ToolBuffer::new();
    let delta = UsageSummary { input_tokens: Some(12), output_tokens: Some(4), ..Default::default() };
    let md = AnthropicEvent { usage: Some(delta), ..ev(None) };
    assert!(matches!(buf.decode_event("message_delta", Ok(md)), Decoded::Nothing));
    match buf.decode_event("message_stop", Ok(ev(None))) {
        Decoded::Chunk(ChatChunk::End { usage: Some(u) }) => {
            assert_eq!(u.input_tokens, Some(12));
            assert_eq!(u.output_tokens, Some(4));
        }
        other => panic!("unexpected {other:?}"),
    }
    assert!(buf.usage.is_none());

    let start = UsageSummary {
        input_tokens: Some(30),
        output_tokens: Some(1),
        cache_read_input_tokens: Some(20),
        cache_creation_input_tokens: Some(0),
    };
    let ms = AnthropicEvent { message_usage: Some(start), ..ev(None) };
    assert!(matches!(buf.decode_event("message_start", Ok(ms)), Decoded::Nothing));
    let later = UsageSummary { output_tokens: Some(57), ..Default::default() };
    let md = AnthropicEvent { usage: Some(later), ..ev(None) };
    assert!(matches!(buf.decode_event("message_delta", Ok(md)), Decoded::Nothing));
    match buf.decode_event("message_stop", Err("no payload".to_string())) {
        Decoded::Chunk(ChatChunk::End { usage: Some(u) }) => {
            assert_eq!(u.input_tokens, Some(30));
            assert_eq!(u.output_tokens, Some(57));
            assert_eq!(u.cache_read_input_tokens, Some(20));
            assert_eq!(u.cache_creation_input_tokens, Some(0));
        }
        other => panic!("unexpected {other:?}"),
    }
}

#[test]
fn request_body_hoists_system_and_keeps_order() {
    let msgs = vec![
        Message::new(Role::User, "first".to_string()),
        Message::new(Role::System, "rule".to_string()),
        Message::new(Role::Assistant, "second".to_string()),
        Message::new(Role::User, "third".to_string()),
    ];
    let b = request_body("model-x", None, None, false, &msgs, &Vec::new());
    assert!(matches!(get(&b, "stream"), Json::Bool(true)));
    assert_eq!(get(&b, "model").as_str(), Some("model-x"));
    assert_eq!(get(&b, "system").as_str(), Some("rule"));
    match get(&b, "messages") {
        Json::Array(ms) => {
            let roles: Vec<_> = ms.iter().map(|m| get(m, "role").as_str().unwrap().to_string()).collect();
            assert_eq!(roles, vec!["user", "assistant", "user"]);
            assert_eq!(get(&ms[0], "content").as_str(), Some("first"));
            assert_eq!(get(&ms[2], "content").as_str(), Some("third"));
        }
        _ => panic!("array expected"),
    }
}
