use pf2e_companion::eval::{build_system_for, check_expectation, grade_one, Expectation, Prompt, RunRecord, RunResult, SuiteSummary};
use pf2e_companion::json::{json_contains, Json, JsonNumber};
use pf2e_companion::llm::UsageSummary;
use pf2e_companion::llm_tools::AgentEvent;

fn s(x: &str) -> Json {
    Json::String(x.to_string())
}

fn n(x: i64) -> Json {
    Json::Number(JsonNumber::from_i64(x))
}

fn obj(entries: Vec<(&str, Json)>) -> Json {
    Json::Object(entries.into_iter().map(|(k, v)| (k.to_string(), v)).collect())
}

fn rec(text: &str, calls: Vec<(&str, Json)>, iterations: usize) -> RunRecord {
    RunRecord {
        final_text: text.to_string(),
        tool_calls: calls.into_iter().map(|(k, v)| (k.to_string(), v)).collect(),
        iterations,
        error: None,
    }
}

fn prompt(expectations: Vec<Expectation>) -> Prompt {
    Prompt {
        id: "x".to_string(),
        description: String::new(),
        prompt: String::new(),
        lens: None,
        system_extra: None,
        expectations,
    }
}

#[test]
fn json_contains_matches_subset_object() {
    let a = obj(vec![("party_size", n(4)), ("difficulty", s("moderate")), ("extra", n(1))]);
    let e = obj(vec![("party_size", n(4)), ("difficulty", s("moderate"))]);
    assert!(json_contains(&a, &e));
}

#[test]
fn json_contains_string_is_case_insensitive() {
    let a = obj(vec![("lens", s("Catholic"))]);
    let e = obj(vec![("lens", s("catholic"))]);
    assert!(json_contains(&a, &e));
}

#[test]
fn json_contains_rejects_missing_key() {
    let a = obj(vec![("difficulty", s("moderate"))]);
    let e = obj(vec![("party_size", n(4))]);
    assert!(!json_contains(&a, &e));
}

#[test]
fn json_contains_handles_nested_objects() {
    let actual = obj(vec![("query", s("purgatory")), ("lens", s("Catholic")), ("extra", obj(vec![("hint", s("yes"))]))]);
    let expected = obj(vec![("lens", s("catholic"))]);
    assert!(json_contains(&actual, &expected));
}

#[test]
fn json_contains_arrays_and_scalars() {
    let a = Json::Array(vec![n(1), s("Two"), Json::Null]);
    assert!(json_contains(&a, &Json::Array(vec![s("two"), n(1)])));
    assert!(!json_contains(&a, &Json::Array(vec![n(3)])));
    assert!(json_contains(&Json::Bool(true), &Json::Bool(true)));
    assert!(!json_contains(&Json::Bool(true), &Json::Null));
    assert!(json_contains(&n(4), &Json::Number(JsonNumber { as_u64: None, as_i64: None, f64_bits: 4.0f64.to_bits() })));
}

#[test]
fn grade_passes_when_tool_called() {
    let p = prompt(vec![Expectation::ToolCalled { name: "xp_budget".to_string() }]);
    let r = rec("ok", vec![("xp_budget", obj(vec![]))], 1);
    let res = grade_one(&p, &r);
    assert!(res.passed);
    assert!(res.failures.is_empty());
}

#[test]
fn grade_fails_when_tool_missing() {
    let p = prompt(vec![Expectation::ToolCalled { name: "search".to_string() }]);
    let r = rec("ok", vec![("xp_budget", obj(vec![]))], 1);
    let res = grade_one(&p, &r);
    assert!(!res.passed);
    assert!(res.failures[0].contains("search"));
    assert_eq!(res.failures[0], "expected tool `search` to be called");
}

#[test]
fn grade_tool_called_with_input_contains() {
    let p = prompt(vec![Expectation::ToolCalledWith {
        name: "search".to_string(),
        input_contains: obj(vec![("lens", s("catholic"))]),
        input_text: "{\"lens\":\"catholic\"}".to_string(),
    }]);
    let bad = rec("", vec![("search", obj(vec![("lens", s("lewisian"))]))], 1);
    let res = grade_one(&p, &bad);
    assert!(!res.passed);
    assert_eq!(res.failures, vec!["expected tool `search` to be called with input containing {\"lens\":\"catholic\"}".to_string()]);
    let good = rec("", vec![("search", obj(vec![("lens", s("catholic")), ("query", s("purgatory"))]))], 1);
    assert!(grade_one(&p, &good).passed);
}

#[test]
fn grade_iterations_cap() {
    let p = prompt(vec![Expectation::IterationsAtMost { max: 3 }]);
    assert!(grade_one(&p, &rec("", vec![], 3)).passed);
    let res = grade_one(&p, &rec("", vec![], 4));
    assert!(!res.passed);
    assert_eq!(res.failures, vec!["iterations 4 exceeded cap 3".to_string()]);
}

#[test]
fn grade_text_contains_excludes_are_case_insensitive() {
    let contains = prompt(vec![Expectation::TextContains { needle: "Soothe".to_string() }]);
    assert!(grade_one(&contains, &rec("Yes, use SOOTHE.", vec![], 1)).passed);
    let excludes = prompt(vec![Expectation::TextExcludes { needle: "must recite".to_string() }]);
    assert!(grade_one(&excludes, &rec("No, you don't need to recite.", vec![], 1)).passed);
    assert!(!grade_one(&excludes, &rec("You MUST recite the verse.", vec![], 1)).passed);
}

#[test]
fn dragonraid_trap_grading_distinguishes_honest_from_bad() {
    let p = prompt(vec![Expectation::TextExcludes { needle: "must recite".to_string() }]);
    let honest = rec("No — players never need to recite anything aloud.", vec![], 1);
    let bad = rec("Yes, the player must recite the matching verse.", vec![], 1);
    assert!(grade_one(&p, &honest).passed);
    let bad_result = grade_one(&p, &bad);
    assert!(!bad_result.passed);
    assert!(bad_result.failures.iter().any(|f| f.contains("must recite")));
}

#[test]
fn grade_reports_agent_error_first() {
    let p = prompt(vec![Expectation::TextContains { needle: "Nephilim".to_string() }]);
    let mut r = rec("nothing", vec![], 1);
    r.error = Some("llm provider not configured".to_string());
    let res = grade_one(&p, &r);
    assert_eq!(
        res.failures,
        vec!["agent error: llm provider not configured".to_string(), "text missing expected substring `Nephilim`".to_string()]
    );
    assert_eq!(res.error.as_deref(), Some("llm provider not configured"));
}

#[test]
fn check_expectation_single() {
    let e = Expectation::TextExcludes { needle: "X".to_string() };
    assert_eq!(check_expectation(&e, &rec("x marks", vec![], 1)), Err("text contains forbidden substring `X`".to_string()));
    assert_eq!(check_expectation(&Expectation::TextContains { needle: String::new() }, &rec("", vec![], 1)), Ok(()));
}

fn result(passed: bool) -> RunResult {
    RunResult {
        id: String::new(),
        description: String::new(),
        passed,
        failures: Vec::new(),
        final_text: String::new(),
        tool_calls: Vec::new(),
        iterations: 0,
        error: None,
    }
}

#[test]
fn suite_summary_counts() {
    let s = SuiteSummary::from_results(vec![result(true), result(false), result(true)]);
    assert_eq!(s.total, 3);
    assert_eq!(s.passed, 2);
    assert_eq!(s.failed, 1);
    assert_eq!(s.results.len(), 3);
}

#[test]
fn record_absorbs_events() {
    let mut r = RunRecord::new();
    assert!(!r.absorb(Ok(AgentEvent::Text("Hello ".to_string()))));
    assert!(!r.absorb(Ok(AgentEvent::ToolStart { id: "1".to_string(), name: "search".to_string(), input: obj(vec![]) })));
    assert!(!r.absorb(Ok(AgentEvent::ToolResult { id: "1".to_string(), name: "search".to_string(), result: Json::Null, error: false })));
    assert!(!r.absorb(Ok(AgentEvent::Text("world".to_string()))));
    assert!(r.absorb(Ok(AgentEvent::End { usage: UsageSummary::default(), iterations: 2 })));
    assert_eq!(r.final_text, "Hello world");
    assert_eq!(r.tool_calls.len(), 1);
    assert_eq!(r.iterations, 2);
    let mut e = RunRecord::new();
    assert!(e.absorb(Err("boom".to_string())));
    assert_eq!(e.error.as_deref(), Some("boom"));
}

#[test]
fn system_prompt_names_the_lens() {
    let mut p = prompt(vec![]);
    let sys = build_system_for(&p);
    assert!(sys.starts_with("You are an evaluation harness running against a PF2e Remaster + Christian Biblical worldview reference assistant. Active lens: lewisian.\n\nAvailable tools:"));
    assert!(sys.ends_with("PF2e Remaster sources.\n"));
    p.lens = Some("catholic".to_string());
    p.system_extra = Some("Be brief.".to_string());
    let sys = build_system_for(&p);
    assert!(sys.contains("Active lens: catholic."));
    assert!(sys.ends_with("sources.\n\nBe brief."));
}

#[test]
fn json_contains_itself() {
    let v = obj(vec![
        ("query", s("Purgatory")),
        ("nested", obj(vec![("list", Json::Array(vec![n(1), s("x"), Json::Null])), ("flag", Json::Bool(false))])),
        ("n", n(-7)),
    ]);
    assert!(json_contains(&v, &v));
    let arr = Json::Array(vec![n(4), Json::Array(vec![])]);
    assert!(json_contains(&arr, &arr));
}

#[test]
fn json_contains_strings_ignore_unicode_case() {
    assert!(json_contains(&s("ÉLIE"), &s("élie")));
    assert!(json_contains(&s("Catholic"), &s("CATHOLIC")));
    assert!(!json_contains(&s("élie"), &s("elie")));
}
