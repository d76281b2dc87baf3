//! Canon-faithfulness and statblock-validity grading: a prompt's
//! expectations checked against what an agent run did.

use vstd::prelude::*;
use vstd::string::StringExecFns;
use crate::json::{Json, JsonV, contains_spec, json_contains};
use crate::llm_tools::AgentEvent;
use crate::text::{chars_of, nat_decimal, opt_view, str_eq, to_lowercase, u64_to_string, unicode_lower};

verus! {

/// One prompt of a suite, with what a good answer must show.
#[derive(Debug)]
pub struct Prompt {
    pub id: String,
    pub description: String,
    pub prompt: String,
    pub lens: Option<String>,
    /// Appended to the system prompt for this run.
    pub system_extra: Option<String>,
    pub expectations: Vec<Expectation>,
}

/// The assertion vocabulary.
#[derive(Debug)]
pub enum Expectation {
    /// Some tool call is named `name`.
    ToolCalled { name: String },
    /// Some call named `name` has an input containing `input_contains`
    /// (see `json_contains`); `input_text` is that value as compact JSON,
    /// for the failure message.
    ToolCalledWith { name: String, input_contains: Json, input_text: String },
    /// The final text contains `needle`, ignoring case.
    TextContains { needle: String },
    /// The final text does not contain `needle`, ignoring case.
    TextExcludes { needle: String },
    /// At most `max` round-trips.
    IterationsAtMost { max: usize },
}

/// What an agent run did.
#[derive(Debug)]
pub struct RunRecord {
    pub final_text: String,
    pub tool_calls: Vec<(String, Json)>,
    pub iterations: usize,
    pub error: Option<String>,
}

/// A tool call as reported in a result.
#[derive(Debug)]
pub struct ToolCallSummary {
    pub name: String,
    pub input: Json,
}

/// A graded run.
#[derive(Debug)]
pub struct RunResult {
    pub id: String,
    pub description: String,
    pub passed: bool,
    pub failures: Vec<String>,
    pub final_text: String,
    pub tool_calls: Vec<ToolCallSummary>,
    pub iterations: usize,
    pub error: Option<String>,
}

/// The graded runs of a suite, with their counts.
#[derive(Debug)]
pub struct SuiteSummary {
    pub total: usize,
    pub passed: usize,
    pub failed: usize,
    pub results: Vec<RunResult>,
}

/// `n` occurs in `h` as a contiguous run (the empty text always does).
pub open spec fn has_sub(h: Seq<char>, n: Seq<char>) -> bool {
    exists|i: int| 0 <= i <= h.len() - n.len() && #[trigger] h.subrange(i, i + n.len()) == n
}

/// Whether `needle` occurs in `hay`.
pub fn contains_str(hay: &str, needle: &str) -> (r: bool)
    ensures
        r == has_sub(hay@, needle@),
{
    let h = chars_of(hay);
    let n = chars_of(needle);
    if n.len() > h.len() {
        assert(!has_sub(hay@, needle@));
        return false;
    }
    let mut i: usize = 0;
    while i <= h.len() - n.len()
        invariant
            h@ == hay@,
            n@ == needle@,
            n@.len() <= h@.len(),
            i <= h@.len() - n@.len() + 1,
            forall|k: int| 0 <= k < i ==> #[trigger] h@.subrange(k, k + n@.len()) != n@,
        decreases h@.len() - n@.len() + 1 - i,
    {
        let mut j: usize = 0;
        while j < n.len() && h[i + j] == n[j]
            invariant
                h@.len() <= usize::MAX,
                h@ == hay@,
                n@ == needle@,
                i + n@.len() <= h@.len(),
                j <= n@.len(),
                forall|k: int| 0 <= k < j ==> h@[i + k] == n@[k],
            decreases n@.len() - j,
        {
            j = j + 1;
        }
        if j == n.len() {
            assert(h@.subrange(i as int, i + n@.len()) =~= n@);
            return true;
        }
        assert(h@.subrange(i as int, i + n@.len())[j as int] != n@[j as int]);
        i = i + 1;
    }
    assert forall|k: int| 0 <= k <= h@.len() - n@.len() implies #[trigger] h@.subrange(k, k + n@.len()) != n@ by {
        assert(k < i);
    }
    false
}

/// Some call is named `name`.
pub open spec fn called(calls: Seq<(String, Json)>, name: Seq<char>) -> bool {
    exists|i: int| 0 <= i < calls.len() && (#[trigger] calls[i]).0@ == name
}

/// Some call named `name` has an input containing `e`.
pub open spec fn called_with(calls: Seq<(String, Json)>, name: Seq<char>, e: JsonV) -> bool {
    exists|i: int| 0 <= i < calls.len() && (#[trigger] calls[i]).0@ == name && contains_spec(calls[i].1@, e)
}

pub open spec fn usize_text(n: usize) -> Seq<char> {
    nat_decimal(n as nat)
}

/// Whether `exp` holds of `rec`, and if not, why.
pub open spec fn check_spec(exp: Expectation, rec: RunRecord) -> Result<(), Seq<char>> {
    match exp {
        Expectation::ToolCalled { name } => if called(rec.tool_calls@, name@) {
            Ok(())
        } else {
            Err("expected tool `"@ + name@ + "` to be called"@)
        },
        Expectation::ToolCalledWith { name, input_contains, input_text } => if called_with(
            rec.tool_calls@,
            name@,
            input_contains@,
        ) {
            Ok(())
        } else {
            Err("expected tool `"@ + name@ + "` to be called with input containing "@ + input_text@)
        },
        Expectation::TextContains { needle } => if has_sub(
            unicode_lower(rec.final_text@),
            unicode_lower(needle@),
        ) {
            Ok(())
        } else {
            Err("text missing expected substring `"@ + needle@ + "`"@)
        },
        Expectation::TextExcludes { needle } => if !has_sub(
            unicode_lower(rec.final_text@),
            unicode_lower(needle@),
        ) {
            Ok(())
        } else {
            Err("text contains forbidden substring `"@ + needle@ + "`"@)
        },
        Expectation::IterationsAtMost { max } => if rec.iterations <= max {
            Ok(())
        } else {
            Err("iterations "@ + usize_text(rec.iterations) + " exceeded cap "@ + usize_text(max))
        },
    }
}

fn usize_to_string(n: usize) -> (s: String)
    ensures
        s@ == usize_text(n),
{
    u64_to_string(n as u64)
}

/// Check one expectation against a run.
pub fn check_expectation(exp: &Expectation, rec: &RunRecord) -> (r: Result<(), String>)
    ensures
        match r {
            Ok(()) => check_spec(*exp, *rec) is Ok,
            Err(m) => check_spec(*exp, *rec) == Err::<(), Seq<char>>(m@),
        },
{
    match exp {
        Expectation::ToolCalled { name } => {
            let mut i: usize = 0;
            while i < rec.tool_calls.len()
                invariant
                    i <= rec.tool_calls@.len(),
                    *exp == (Expectation::ToolCalled { name: *name }),
                    forall|k: int| 0 <= k < i ==> (#[trigger] rec.tool_calls@[k]).0@ != name@,
                decreases rec.tool_calls@.len() - i,
            {
                if str_eq(rec.tool_calls[i].0.as_str(), name.as_str()) {
                    assert(rec.tool_calls@[i as int].0@ == name@);
                    assert(called(rec.tool_calls@, name@));
                    return Ok(());
                }
                i = i + 1;
            }
            let mut m = "expected tool `".to_owned();
            m.append(name.as_str());
            m.append("` to be called");
            Err(m)
        },
        Expectation::ToolCalledWith { name, input_contains, input_text } => {
            let mut i: usize = 0;
            while i < rec.tool_calls.len()
                invariant
                    i <= rec.tool_calls@.len(),
                    *exp == (Expectation::ToolCalledWith {
                        name: *name,
                        input_contains: *input_contains,
                        input_text: *input_text,
                    }),
                    forall|k: int|
                        0 <= k < i ==> !((#[trigger] rec.tool_calls@[k]).0@ == name@ && contains_spec(
                            rec.tool_calls@[k].1@,
                            input_contains@,
                        )),
                decreases rec.tool_calls@.len() - i,
            {
                if str_eq(rec.tool_calls[i].0.as_str(), name.as_str()) && json_contains(
                    &rec.tool_calls[i].1,
                    input_contains,
                ) {
                    assert(rec.tool_calls@[i as int].0@ == name@);
                    assert(called_with(rec.tool_calls@, name@, input_contains@));
                    return Ok(());
                }
                i = i + 1;
            }
            let mut m = "expected tool `".to_owned();
            m.append(name.as_str());
            m.append("` to be called with input containing ");
            m.append(input_text.as_str());
            Err(m)
        },
        Expectation::TextContains { needle } => {
            let h = to_lowercase(rec.final_text.as_str());
            let n = to_lowercase(needle.as_str());
            if contains_str(h.as_str(), n.as_str()) {
                Ok(())
            } else {
                let mut m = "text missing expected substring `".to_owned();
                m.append(needle.as_str());
                m.append("`");
                Err(m)
            }
        },
        Expectation::TextExcludes { needle } => {
            let h = to_lowercase(rec.final_text.as_str());
            let n = to_lowercase(needle.as_str());
            if !contains_str(h.as_str(), n.as_str()) {
                Ok(())
            } else {
                let mut m = "text contains forbidden substring `".to_owned();
                m.append(needle.as_str());
                m.append("`");
                Err(m)
            }
        },
        Expectation::IterationsAtMost { max } => {
            if rec.iterations <= *max {
                Ok(())
            } else {
                let mut m = "iterations ".to_owned();
                let a = usize_to_string(rec.iterations);
                m.append(a.as_str());
                m.append(" exceeded cap ");
                let b = usize_to_string(*max);
                m.append(b.as_str());
                Err(m)
            }
        },
    }
}

/// The failure messages of the first `n` expectations, in order.
pub open spec fn failures_of(exps: Seq<Expectation>, rec: RunRecord, n: int) -> Seq<Seq<char>>
    decreases n,
{
    if n <= 0 || n > exps.len() {
        Seq::empty()
    } else {
        failures_of(exps, rec, n - 1) + match check_spec(exps[n - 1], rec) {
            Ok(()) => Seq::empty(),
            Err(m) => seq![m],
        }
    }
}

/// Every failure of a run: its error first, then each unmet expectation.
pub open spec fn all_failures(p: Prompt, rec: RunRecord) -> Seq<Seq<char>> {
    (match rec.error {
        Some(e) => seq!["agent error: "@ + e@],
        None => Seq::empty(),
    }) + failures_of(p.expectations@, rec, p.expectations@.len() as int)
}

pub open spec fn texts_of(v: Seq<String>) -> Seq<Seq<char>> {
    v.map_values(|s: String| s@)
}

/// Grade one run against its prompt's expectations.
pub fn grade_one(p: &Prompt, record: &RunRecord) -> (r: RunResult)
    ensures
        texts_of(r.failures@) == all_failures(*p, *record),
        r.passed == (r.failures@.len() == 0),
        r.id@ == p.id@,
        r.description@ == p.description@,
        r.final_text@ == record.final_text@,
        r.iterations == record.iterations,
        opt_view(r.error) == opt_view(record.error),
        r.tool_calls@.len() == record.tool_calls@.len(),
        forall|i: int|
            0 <= i < r.tool_calls@.len() ==> (#[trigger] r.tool_calls@[i]).name@ == record.tool_calls@[i].0@
                && r.tool_calls@[i].input@ == record.tool_calls@[i].1@,
{
    let mut failures: Vec<String> = Vec::new();
    match &record.error {
        Some(e) => {
            let mut m = "agent error: ".to_owned();
            m.append(e.as_str());
            failures.push(m);
        },
        None => {},
    }
    let ghost head = texts_of(failures@);
    assert(head =~= match record.error {
        Some(e) => seq!["agent error: "@ + e@],
        None => Seq::<Seq<char>>::empty(),
    });
    let mut i: usize = 0;
    while i < p.expectations.len()
        invariant
            i <= p.expectations@.len(),
            texts_of(failures@) =~= head + failures_of(p.expectations@, *record, i as int),
        decreases p.expectations@.len() - i,
    {
        let ghost before = failures@;
        match check_expectation(&p.expectations[i], record) {
            Ok(()) => {
                assert(failures_of(p.expectations@, *record, i + 1) =~= failures_of(
                    p.expectations@,
                    *record,
                    i as int,
                ));
            },
            Err(m) => {
                failures.push(m);
                assert(texts_of(failures@) =~= texts_of(before).push(m@));
                assert(failures_of(p.expectations@, *record, i + 1) =~= failures_of(
                    p.expectations@,
                    *record,
                    i as int,
                ).push(m@));
            },
        }
        i = i + 1;
    }
    let mut calls: Vec<ToolCallSummary> = Vec::new();
    let mut k: usize = 0;
    while k < record.tool_calls.len()
        invariant
            k <= record.tool_calls@.len(),
            calls@.len() == k,
            forall|j: int|
                0 <= j < k ==> (#[trigger] calls@[j]).name@ == record.tool_calls@[j].0@ && calls@[j].input@
                    == record.tool_calls@[j].1@,
        decreases record.tool_calls@.len() - k,
    {
        let c = ToolCallSummary {
            name: record.tool_calls[k].0.clone(),
            input: record.tool_calls[k].1.deep_clone(),
        };
        calls.push(c);
        k = k + 1;
    }
    let error = match &record.error {
        Some(e) => Some(e.clone()),
        None => None,
    };
    let passed = failures.len() == 0;
    RunResult {
        id: p.id.clone(),
        description: p.description.clone(),
        passed,
        failures,
        final_text: record.final_text.clone(),
        tool_calls: calls,
        iterations: record.iterations,
        error,
    }
}

proof fn lemma_failures_empty(exps: Seq<Expectation>, rec: RunRecord, n: int)
    requires
        0 <= n <= exps.len(),
    ensures
        failures_of(exps, rec, n).len() == 0 <==> forall|i: int| 0 <= i < n ==> (#[trigger] check_spec(exps[i], rec)) is Ok,
    decreases n,
{
    if n > 0 {
        lemma_failures_empty(exps, rec, n - 1);
        let ok = check_spec(exps[n - 1], rec) is Ok;
        if failures_of(exps, rec, n).len() == 0 {
            assert(ok);
            assert forall|i: int| 0 <= i < n implies (#[trigger] check_spec(exps[i], rec)) is Ok by {
                if i < n - 1 {
                    assert(check_spec(exps[i], rec) is Ok);
                }
            }
        }
        if forall|i: int| 0 <= i < n ==> (#[trigger] check_spec(exps[i], rec)) is Ok {
            assert(check_spec(exps[n - 1], rec) is Ok);
            assert forall|i: int| 0 <= i < n - 1 implies (#[trigger] check_spec(exps[i], rec)) is Ok by {
                assert(0 <= i < n);
            }
        }
    }
}

/// A run passes exactly when the agent raised no error and every
/// expectation of its prompt holds.
pub proof fn law_pass_iff_no_error_and_all_met(p: Prompt, rec: RunRecord)
    ensures
        all_failures(p, rec).len() == 0 <==> (rec.error is None && forall|i: int|
            0 <= i < p.expectations@.len() ==> (#[trigger] check_spec(p.expectations@[i], rec)) is Ok),
{
    lemma_failures_empty(p.expectations@, rec, p.expectations@.len() as int);
}

/// Every unmet expectation, and nothing else besides the agent's error,
/// appears among the failures: there are as many failures as unmet
/// expectations, plus one for an error.
pub open spec fn unmet_count(exps: Seq<Expectation>, rec: RunRecord, n: int) -> int
    decreases n,
{
    if n <= 0 || n > exps.len() {
        0
    } else {
        unmet_count(exps, rec, n - 1) + if check_spec(exps[n - 1], rec) is Ok {
            0int
        } else {
            1int
        }
    }
}

proof fn lemma_failures_len(exps: Seq<Expectation>, rec: RunRecord, n: int)
    requires
        0 <= n <= exps.len(),
    ensures
        failures_of(exps, rec, n).len() == unmet_count(exps, rec, n),
    decreases n,
{
    if n > 0 {
        lemma_failures_len(exps, rec, n - 1);
    }
}

/// The number of failures of a run is the number of unmet expectations,
/// plus one when the agent raised an error.
pub proof fn law_failure_count(p: Prompt, rec: RunRecord)
    ensures
        all_failures(p, rec).len() == unmet_count(p.expectations@, rec, p.expectations@.len() as int) + (
        if rec.error is Some {
            1int
        } else {
            0int
        }),
{
    lemma_failures_len(p.expectations@, rec, p.expectations@.len() as int);
}

/// How many of the first `n` results passed.
pub open spec fn passed_count(rs: Seq<RunResult>, n: int) -> int
    decreases n,
{
    if n <= 0 || n > rs.len() {
        0
    } else {
        passed_count(rs, n - 1) + if rs[n - 1].passed {
            1int
        } else {
            0int
        }
    }
}

proof fn lemma_passed_count_bound(rs: Seq<RunResult>, n: int)
    requires
        0 <= n <= rs.len(),
    ensures
        0 <= passed_count(rs, n) <= n,
    decreases n,
{
    if n > 0 {
        lemma_passed_count_bound(rs, n - 1);
    }
}

impl SuiteSummary {
    /// Count the results: every result is either passed or failed.
    pub fn from_results(results: Vec<RunResult>) -> (s: SuiteSummary)
        ensures
            s.results@ == results@,
            s.total == results@.len(),
            s.passed == passed_count(results@, results@.len() as int),
            s.failed == s.total - s.passed,
            s.total == s.passed + s.failed,
    {
        let total = results.len();
        let mut passed: usize = 0;
        let mut i: usize = 0;
        while i < results.len()
            invariant
                i <= results@.len(),
                passed == passed_count(results@, i as int),
                passed <= i,
            decreases results@.len() - i,
        {
            proof {
                lemma_passed_count_bound(results@, i as int);
            }
            if results[i].passed {
                passed = passed + 1;
            }
            i = i + 1;
        }
        SuiteSummary { total, passed, failed: total - passed, results }
    }
}

impl RunRecord {
    /// An empty record.
    pub fn new() -> (r: RunRecord)
        ensures
            r.final_text@.len() == 0,
            r.tool_calls@.len() == 0,
            r.iterations == 0,
            r.error is None,
    {
        RunRecord { final_text: String::new(), tool_calls: Vec::new(), iterations: 0, error: None }
    }

    /// Take one item of an agent's event stream into the record; `true`
    /// when the run is over (its end, or an error).
    pub fn absorb(&mut self, item: Result<AgentEvent, String>) -> (stop: bool)
        ensures
            match item {
                Ok(AgentEvent::Text(s)) => !stop && final(self).final_text@ == old(self).final_text@ + s@
                    && final(self).tool_calls@ == old(self).tool_calls@ && final(self).iterations
                    == old(self).iterations && final(self).error == old(self).error,
                Ok(AgentEvent::ToolStart { id, name, input }) => !stop && final(self).tool_calls@
                    == old(self).tool_calls@.push((name, input)) && final(self).final_text@
                    == old(self).final_text@ && final(self).iterations == old(self).iterations
                    && final(self).error == old(self).error,
                Ok(AgentEvent::ToolResult { .. }) => !stop && final(self).final_text@
                    == old(self).final_text@ && final(self).tool_calls@ == old(self).tool_calls@
                    && final(self).iterations == old(self).iterations && final(self).error
                    == old(self).error,
                Ok(AgentEvent::End { usage, iterations }) => stop && final(self).iterations == iterations
                    && final(self).final_text@ == old(self).final_text@ && final(self).tool_calls@
                    == old(self).tool_calls@ && final(self).error == old(self).error,
                Err(e) => stop && opt_view(final(self).error) == Some(e@) && final(self).final_text@
                    == old(self).final_text@ && final(self).tool_calls@ == old(self).tool_calls@
                    && final(self).iterations == old(self).iterations,
            },
    {
        match item {
            Ok(AgentEvent::Text(s)) => {
                self.final_text.append(s.as_str());
                false
            },
            Ok(AgentEvent::ToolStart { id, name, input }) => {
                self.tool_calls.push((name, input));
                false
            },
            Ok(AgentEvent::ToolResult { .. }) => false,
            Ok(AgentEvent::End { usage, iterations }) => {
                self.iterations = iterations;
                true
            },
            Err(e) => {
                self.error = Some(e);
                true
            },
        }
    }
}

pub open spec fn system_intro(lens: Seq<char>) -> Seq<char> {
    "You are an evaluation harness running against a PF2e Remaster + Christian Biblical worldview reference assistant. Active lens: "@
        + lens
        + ".\n\nAvailable tools: xp_budget, validate_statblock, lookup_alias, lookup_miracle, search. Use them when the question requires lookup, validation, or computation rather than guessing.\n\nDiscipline rules:\n- Do NOT require real-world prayer, recitation, or piety as a mechanical input. Theology is content, not a rules input.\n- For rules-touching answers, suggest verifying against canonical PF2e Remaster sources.\n"@
}

/// The system prompt for one evaluation run: the fixed brief naming the
/// prompt's lens (Lewisian by default), then the prompt's own addition
/// after a newline.
pub open spec fn system_for_spec(lens: Option<Seq<char>>, extra: Option<Seq<char>>) -> Seq<char> {
    system_intro(
        match lens {
            Some(l) => l,
            None => "lewisian"@,
        },
    ) + match extra {
        Some(x) => seq!['\n'] + x,
        None => Seq::empty(),
    }
}

pub fn build_system_for(p: &Prompt) -> (s: String)
    ensures
        s@ == system_for_spec(opt_view(p.lens), opt_view(p.system_extra)),
{
    let mut sys = "You are an evaluation harness running against a PF2e Remaster + Christian Biblical worldview reference assistant. Active lens: ".to_owned();
    match &p.lens {
        Some(l) => sys.append(l.as_str()),
        None => sys.append("lewisian"),
    }
    sys.append(".\n\nAvailable tools: xp_budget, validate_statblock, lookup_alias, lookup_miracle, search. Use them when the question requires lookup, validation, or computation rather than guessing.\n\nDiscipline rules:\n- Do NOT require real-world prayer, recitation, or piety as a mechanical input. Theology is content, not a rules input.\n- For rules-touching answers, suggest verifying against canonical PF2e Remaster sources.\n");
    match &p.system_extra {
        Some(x) => {
            sys.append("\n");
            proof {
                reveal_strlit("\n");
            }
            sys.append(x.as_str());
        },
        None => {},
    }
    sys
}

} // verus!
