//! Decisions of the session loop: turning the outcomes of a parallel tool
//! fan-out into results, closing the tool turn, cancellation by state, and
//! whether to call the provider again.
use vstd::prelude::*;
use crate::dispatch::{bump, failure_text, is_main, same_session, tool_failure_result, tracker_count, ToolExecutionContext, MAX_CONSECUTIVE_ERRORS};
use crate::log::{appended_positions, ids_of, keep_calls, lemma_keep_calls, no_dup, result_ids, tool_messages, LogError, MessageLog, MessageView, Role};
use crate::text::str_eq;
use crate::tools::{text_envelope, CallView, McpToolCall, McpToolResult};

verus! {

/// Where the session loop stands.
#[derive(Debug, Clone, Copy, PartialEq, Eq, Structural)]
pub enum RunnerState {
    Idle,
    ReadingInput,
    ProcessingLayers,
    CallingApi,
    ExecutingTools,
    ProcessingResponse,
    CompletedWithResults,
}

/// How one tool call of a fan-out ended.
#[derive(Debug)]
pub enum ToolOutcome {
    /// It produced a result.
    Completed(McpToolResult),
    /// It failed with this error text.
    Failed(String),
    /// The user declined its oversized output; the result explains that.
    Declined(McpToolResult),
    /// It was still running when the operation was cancelled.
    Cancelled,
}

/// The outcome produces a tool result for the conversation.
pub open spec fn answers(o: ToolOutcome) -> bool {
    match o {
        ToolOutcome::Completed(_) => true,
        ToolOutcome::Failed(_) => true,
        _ => false,
    }
}

/// The ids of the first `n` calls whose outcome produces a result, in order.
pub open spec fn answered_ids(cs: Seq<McpToolCall>, os: Seq<ToolOutcome>, n: int) -> Seq<Seq<char>>
    decreases n,
{
    if n <= 0 {
        seq![]
    } else if answers(os[n - 1]) {
        answered_ids(cs, os, n - 1).push(cs[n - 1].tool_id@)
    } else {
        answered_ids(cs, os, n - 1)
    }
}

/// The failure streak of tool `name` after the first `i` outcomes: a
/// completed call of it ends the streak, a failed one lengthens it.
pub open spec fn streak(
    ctx: ToolExecutionContext,
    cs: Seq<McpToolCall>,
    os: Seq<ToolOutcome>,
    i: int,
    name: Seq<char>,
) -> u32
    decreases i,
{
    if i <= 0 {
        tracker_count(ctx, name)
    } else {
        let p = streak(ctx, cs, os, i - 1, name);
        if cs[i - 1].tool_name@ == name {
            match os[i - 1] {
                ToolOutcome::Completed(_) => 0,
                ToolOutcome::Failed(_) => bump(p),
                _ => p,
            }
        } else {
            p
        }
    }
}

/// The failure of call `i` is the one that makes a loop.
pub open spec fn looped_at(ctx: ToolExecutionContext, cs: Seq<McpToolCall>, os: Seq<ToolOutcome>, i: int) -> bool {
    is_main(ctx) && bump(streak(ctx, cs, os, i, cs[i].tool_name@)) >= MAX_CONSECUTIVE_ERRORS
}

/// Result `r` is what the call `c` with outcome `o` gives (`looped`: its
/// failure completes a loop).
pub open spec fn result_matches(r: McpToolResult, c: McpToolCall, o: ToolOutcome, looped: bool) -> bool {
    &&& r.tool_id@ == c.tool_id@
    &&& r.tool_name@ == c.tool_name@
    &&& match o {
        ToolOutcome::Completed(x) => r.result@ == x.result@,
        ToolOutcome::Failed(e) => r.result@ == text_envelope(failure_text(c.tool_name@, e@, looped), true),
        _ => false,
    }
}

/// The positions of the first `n` outcomes that produce a result.
pub open spec fn answered_positions(os: Seq<ToolOutcome>, n: int) -> Seq<int>
    decreases n,
{
    if n <= 0 {
        seq![]
    } else if answers(os[n - 1]) {
        answered_positions(os, n - 1).push(n - 1)
    } else {
        answered_positions(os, n - 1)
    }
}

/// Each result is what the call at the matching answered position gives.
pub open spec fn each_result_matches(
    ctx: ToolExecutionContext,
    rs: Seq<McpToolResult>,
    cs: Seq<McpToolCall>,
    os: Seq<ToolOutcome>,
    n: int,
) -> bool {
    let ps = answered_positions(os, n);
    &&& ps.len() == rs.len()
    &&& forall|k: int|
        0 <= k < rs.len() ==> #[trigger] result_matches(rs[k], cs[ps[k]], os[ps[k]], looped_at(ctx, cs, os, ps[k]))
}

pub open spec fn min_len(a: int, b: int) -> int {
    if a < b {
        a
    } else {
        b
    }
}

/// The results of a fan-out, in call order: a completed call gives its
/// result under the call's own id and name; a failed call gives an error
/// result (counted towards loop detection in the main session); declined
/// and cancelled calls give none. `outcomes[i]` belongs to `calls[i]`.
pub fn collect_tool_results(
    ctx: &mut ToolExecutionContext,
    calls: &Vec<McpToolCall>,
    outcomes: &Vec<ToolOutcome>,
) -> (r: Vec<McpToolResult>)
    ensures
        result_ids(r@) == answered_ids(calls@, outcomes@, min_len(calls@.len() as int, outcomes@.len() as int)),
        each_result_matches(*old(ctx), r@, calls@, outcomes@, min_len(calls@.len() as int, outcomes@.len() as int)),
        same_session(*old(ctx), *final(ctx)),
        is_main(*old(ctx)) ==> forall|name: Seq<char>| #[trigger] tracker_count(*final(ctx), name) == streak(
            *old(ctx),
            calls@,
            outcomes@,
            min_len(calls@.len() as int, outcomes@.len() as int),
            name,
        ),
{
    let n = if calls.len() < outcomes.len() {
        calls.len()
    } else {
        outcomes.len()
    };
    let mut out: Vec<McpToolResult> = Vec::new();
    let ghost mut src: Seq<int> = Seq::empty();
    let ghost c0 = *ctx;
    let mut i: usize = 0;
    while i < n
        invariant
            n == min_len(calls@.len() as int, outcomes@.len() as int),
            i <= n,
            c0 == *old(ctx),
            result_ids(out@) == answered_ids(calls@, outcomes@, i as int),
            src == answered_positions(outcomes@, i as int),
            src.len() == out@.len(),
            forall|k: int| 0 <= k < src.len() ==> 0 <= #[trigger] src[k] < i,
            forall|k: int|
                0 <= k < out@.len() ==> #[trigger] result_matches(
                    out@[k],
                    calls@[src[k]],
                    outcomes@[src[k]],
                    looped_at(c0, calls@, outcomes@, src[k]),
                ),
            same_session(c0, *ctx),
            is_main(c0) ==> forall|name: Seq<char>| #[trigger] tracker_count(*ctx, name) == streak(c0, calls@, outcomes@, i as int, name),
        decreases n - i,
    {
        let call = &calls[i];
        let ghost before = out@;
        let ghost cur = *ctx;
        let ghost looped = looped_at(c0, calls@, outcomes@, i as int);
        proof {
            assert forall|name: Seq<char>| #[trigger] streak(c0, calls@, outcomes@, i + 1, name) == (if calls@[i as int].tool_name@ == name {
                match outcomes@[i as int] {
                    ToolOutcome::Completed(_) => 0,
                    ToolOutcome::Failed(_) => bump(streak(c0, calls@, outcomes@, i as int, name)),
                    _ => streak(c0, calls@, outcomes@, i as int, name),
                }
            } else {
                streak(c0, calls@, outcomes@, i as int, name)
            }) by {}
        }
        match &outcomes[i] {
            ToolOutcome::Completed(res) => {
                ctx.record_tool_success(call.tool_name.as_str());
                let r = McpToolResult {
                    tool_name: call.tool_name.clone(),
                    result: res.result.clone(),
                    tool_id: call.tool_id.clone(),
                };
                assert(result_matches(r, calls@[i as int], outcomes@[i as int], looped));
                out.push(r);
                assert(out@ == before.push(r));
            },
            ToolOutcome::Failed(e) => {
                let r = tool_failure_result(ctx, call.tool_name.as_str(), call.tool_id.as_str(), e.as_str());
                assert(is_main(cur) == is_main(c0));
                assert(result_matches(r, calls@[i as int], outcomes@[i as int], looped));
                out.push(r);
                assert(out@ == before.push(r));
            },
            _ => {},
        }
        proof {
            if answers(outcomes@[i as int]) {
                assert(result_ids(out@) =~= result_ids(before).push(calls@[i as int].tool_id@));
            } else {
                assert(out@ == before);
                assert(result_ids(out@) == result_ids(before));
            }
            if answers(outcomes@[i as int]) {
                src = src.push(i as int);
            }
            assert forall|k: int| 0 <= k < out@.len() implies #[trigger] result_matches(
                out@[k],
                calls@[src[k]],
                outcomes@[src[k]],
                looped_at(c0, calls@, outcomes@, src[k]),
            ) by {
                if k < before.len() {
                    assert(out@[k] == before[k]);
                }
            }
            assert forall|k: int| 0 <= k < src.len() implies 0 <= #[trigger] src[k] < i + 1 by {}
        }
        i = i + 1;
    }
    out
}

/// Closes the tool turn after a fan-out, whether it finished or was
/// cancelled: the results are gathered, the open assistant message keeps
/// only the calls that have one, and their tool messages follow it.
pub fn finish_tool_turn(
    log: &mut MessageLog,
    ctx: &mut ToolExecutionContext,
    calls: &Vec<McpToolCall>,
    outcomes: &Vec<ToolOutcome>,
    now: u64,
) -> (r: Result<Vec<McpToolResult>, LogError>)
    requires
        old(log).wf(),
    ensures
        final(log).wf(),
        r is Ok <==> (old(log)@.len() > 0 && old(log)@.last().role == Role::Assistant),
        r is Err ==> final(log)@ == old(log)@,
        r is Ok ==> {
            let n = old(log)@.len() as int;
            &&& final(log).pending().len() == 0
            &&& result_ids(r->Ok_0@) == answered_ids(calls@, outcomes@, min_len(calls@.len() as int, outcomes@.len() as int))
            &&& final(log)@[n - 1].tool_calls == keep_calls(
                old(log)@.last().tool_calls,
                result_ids(r->Ok_0@),
                true,
            )
            &&& final(log)@.subrange(0, n - 1) == old(log)@.subrange(0, n - 1)
            &&& final(log)@[n - 1] == (MessageView {
                tool_calls: keep_calls(old(log)@.last().tool_calls, result_ids(r->Ok_0@), true),
                ..old(log)@.last()
            })
            &&& final(log)@.subrange(n, final(log)@.len() as int) == tool_messages(
                r->Ok_0@,
                appended_positions(
                    r->Ok_0@,
                    ids_of(keep_calls(old(log)@.last().tool_calls, result_ids(r->Ok_0@), true)),
                    r->Ok_0@.len() as int,
                ),
                now,
            )
        },
{
    let results = collect_tool_results(ctx, calls, outcomes);
    match log.complete_tool_turn(&results, now) {
        Ok(()) => Ok(results),
        Err(e) => Err(e),
    }
}

/// `s` without its last message when that message has role `r`.
pub open spec fn drop_last_if(s: Seq<MessageView>, r: Role) -> Seq<MessageView> {
    if s.len() > 0 && s.last().role == r {
        s.drop_last()
    } else {
        s
    }
}

/// The last message is an assistant stub: no text, no tool calls.
pub open spec fn ends_with_stub(s: Seq<MessageView>) -> bool {
    s.len() > 0 && s.last().role == Role::Assistant && s.last().tool_calls.len() == 0
        && s.last().content.len() == 0
}

/// The log after a cancellation in `state`.
pub open spec fn after_cancellation(state: RunnerState, s: Seq<MessageView>) -> Seq<MessageView> {
    match state {
        RunnerState::ProcessingLayers => drop_last_if(s, Role::User),
        RunnerState::CallingApi => drop_last_if(
            if ends_with_stub(s) {
                s.drop_last()
            } else {
                s
            },
            Role::User,
        ),
        _ => s,
    }
}

/// Cancelling again and again while idle changes nothing.
pub proof fn lemma_idle_cancellation_idempotent(s: Seq<MessageView>)
    ensures
        after_cancellation(RunnerState::Idle, s) == s,
        after_cancellation(RunnerState::Idle, after_cancellation(RunnerState::Idle, s)) == s,
{
}

/// What cancellation undoes, by the state it interrupts: nothing while
/// idle, reading input, or after the response; the user message just added
/// while layers ran; the user message and an empty assistant stub while the
/// provider was being called. (A cancelled tool fan-out is closed by
/// [`finish_tool_turn`] with the outcomes that did complete.) The loop then
/// returns to `Idle`.
pub fn handle_cancellation(log: &mut MessageLog, state: RunnerState) -> (r: RunnerState)
    requires
        old(log).wf(),
    ensures
        final(log).wf(),
        r == RunnerState::Idle,
        final(log)@ == after_cancellation(state, old(log)@),
{
    match state {
        RunnerState::ProcessingLayers => {
            drop_trailing_user(log);
        },
        RunnerState::CallingApi => {
            let n = log.len();
            if n > 0 {
                let last = &log.messages()[n - 1];
                if last.role == Role::Assistant && last.tool_calls.len() == 0 && last.content.as_str().is_empty() {
                    log.drop_last_turn_message();
                }
            }
            drop_trailing_user(log);
        },
        _ => {},
    }
    RunnerState::Idle
}

fn drop_trailing_user(log: &mut MessageLog)
    requires
        old(log).wf(),
    ensures
        final(log).wf(),
        if old(log)@.len() > 0 && old(log)@.last().role == Role::User {
            final(log)@ == old(log)@.drop_last()
        } else {
            final(log)@ == old(log)@
        },
{
    let n = log.len();
    if n > 0 && log.messages()[n - 1].role == Role::User {
        log.drop_last_turn_message();
    }
}

/// Whether the provider should be called again after a response: it asked
/// for tools (`tool_calls`/`tool_use`), it gave an unknown reason, or it
/// gave none and there are tool calls; not when it stopped (`stop`,
/// `length`, `end_turn`).
pub fn check_should_continue(finish_reason: Option<&str>, has_more_tools: bool) -> (r: bool)
    ensures
        r == match finish_reason {
            Some(f) => !(f@ == "stop"@ || f@ == "length"@ || f@ == "end_turn"@),
            None => has_more_tools,
        },
{
    match finish_reason {
        Some(f) => !(str_eq(f, "stop") || str_eq(f, "length") || str_eq(f, "end_turn")),
        None => has_more_tools,
    }
}

/// The tool loop goes on while the response carries tool calls and the
/// provider did not stop.
pub fn continue_tool_loop(finish_reason: Option<&str>, has_tool_calls: bool) -> (r: bool)
    ensures
        r == (has_tool_calls && match finish_reason {
            Some(f) => !(f@ == "stop"@ || f@ == "length"@ || f@ == "end_turn"@),
            None => true,
        }),
{
    has_tool_calls && check_should_continue(finish_reason, true)
}


/// The calls the context allows, in order; the others are not executed.
pub fn filter_allowed_calls(ctx: &ToolExecutionContext, calls: Vec<McpToolCall>) -> (r: Vec<McpToolCall>)
    ensures
        r@.len() <= calls@.len(),
        match ctx {
            ToolExecutionContext::MainSession { .. } => r@.map_values(|c: McpToolCall| c@) == calls@.map_values(|c: McpToolCall| c@),
            ToolExecutionContext::Layer { allowed_tools, .. } => r@.map_values(|c: McpToolCall| c@) == calls@.map_values(|c: McpToolCall| c@).filter(
                |c: CallView| allowed_tools@.len() == 0 || exists|k: int| 0 <= k < allowed_tools@.len() && #[trigger] allowed_tools@[k]@ == c.tool_name,
            ),
        },
{
    let ghost all = calls@.map_values(|c: McpToolCall| c@);
    let mut out: Vec<McpToolCall> = Vec::new();
    let mut i: usize = 0;
    while i < calls.len()
        invariant
            i <= calls@.len(),
            out@.len() <= i,
            all == calls@.map_values(|c: McpToolCall| c@),
            match ctx {
                ToolExecutionContext::MainSession { .. } => out@.map_values(|c: McpToolCall| c@) == all.subrange(0, i as int),
                ToolExecutionContext::Layer { allowed_tools, .. } => out@.map_values(|c: McpToolCall| c@) == all.subrange(0, i as int).filter(
                    |c: CallView| allowed_tools@.len() == 0 || exists|k: int| 0 <= k < allowed_tools@.len() && #[trigger] allowed_tools@[k]@ == c.tool_name,
                ),
            },
        decreases calls.len() - i,
    {
        proof {
            assert(all.subrange(0, i + 1).drop_last() =~= all.subrange(0, i as int));
            reveal(Seq::filter);
        }
        let ghost before = out@.map_values(|c: McpToolCall| c@);
        if ctx.is_tool_allowed(calls[i].tool_name.as_str()) {
            out.push(calls[i].clone());
            assert(out@.map_values(|c: McpToolCall| c@) =~= before.push(all[i as int]));
        }
        proof {
            match ctx {
                ToolExecutionContext::MainSession { .. } => {
                    assert(all.subrange(0, i + 1) =~= all.subrange(0, i as int).push(all[i as int]));
                },
                _ => {},
            }
        }
        i = i + 1;
    }
    proof {
        assert(all.subrange(0, calls@.len() as int) =~= all);
    }
    out
}


/// The exit code of a session the user cancelled.
pub const CANCELLED_EXIT_CODE: i32 = 130;

/// Ctrl+C handling: the first press cancels the current operation; a
/// second press before the operation ends exits the process.
pub struct InterruptState {
    cancel_requested: bool,
}

impl InterruptState {
    pub closed spec fn spec_requested(&self) -> bool {
        self.cancel_requested
    }

    pub fn new() -> (r: Self)
        ensures
            !r.spec_requested(),
    {
        InterruptState { cancel_requested: false }
    }

    /// A Ctrl+C press: the exit code to leave with on the second press in a
    /// row, none on the first (which only asks for cancellation).
    pub fn on_interrupt(&mut self) -> (r: Option<i32>)
        ensures
            final(self).spec_requested(),
            r == if old(self).spec_requested() {
                Some(CANCELLED_EXIT_CODE)
            } else {
                None::<i32>
            },
    {
        if self.cancel_requested {
            return Some(CANCELLED_EXIT_CODE);
        }
        self.cancel_requested = true;
        None
    }

    /// Whether the current operation should stop.
    pub fn is_cancelled(&self) -> (r: bool)
        ensures
            r == self.spec_requested(),
    {
        self.cancel_requested
    }

    /// The operation ended (or its cancellation was handled): presses
    /// count afresh.
    pub fn reset(&mut self)
        ensures
            !final(self).spec_requested(),
    {
        self.cancel_requested = false;
    }
}


proof fn lemma_answered_ids(cs: Seq<McpToolCall>, os: Seq<ToolOutcome>, m: int, x: Seq<char>)
    requires
        0 <= m <= cs.len(),
        m <= os.len(),
    ensures
        answered_ids(cs, os, m).contains(x) <==> exists|j: int| 0 <= j < m && answers(os[j]) && #[trigger] cs[j].tool_id@ == x,
    decreases m,
{
    if m > 0 {
        lemma_answered_ids(cs, os, m - 1, x);
        let p = answered_ids(cs, os, m - 1);
        if answers(os[m - 1]) {
            let q = p.push(cs[m - 1].tool_id@);
            if q.contains(x) {
                let k = choose|k: int| 0 <= k < q.len() && q[k] == x;
                if k < p.len() {
                    assert(p[k] == x);
                }
            }
            if p.contains(x) {
                let k = choose|k: int| 0 <= k < p.len() && p[k] == x;
                assert(q[k] == x);
            }
            if cs[m - 1].tool_id@ == x {
                assert(q[p.len() as int] == x);
            }
        }
    }
}

/// After a fan-out (completed, failed, declined or cancelled calls), the
/// assistant message keeps the tool call of a call exactly when that call
/// produced a result: a declined or cancelled call loses its tool use, a
/// completed or failed one keeps it.
pub proof fn lemma_fan_out_keeps_answered(cs: Seq<McpToolCall>, os: Seq<ToolOutcome>, i: int)
    requires
        cs.len() == os.len(),
        0 <= i < cs.len(),
        no_dup(ids_of(cs.map_values(|c: McpToolCall| c@))),
    ensures
        ids_of(
            keep_calls(cs.map_values(|c: McpToolCall| c@), answered_ids(cs, os, cs.len() as int), true),
        ).contains(cs[i].tool_id@) <==> answers(os[i]),
{
    let views = cs.map_values(|c: McpToolCall| c@);
    let a = answered_ids(cs, os, cs.len() as int);
    lemma_keep_calls(views, a, true);
    lemma_answered_ids(cs, os, cs.len() as int, cs[i].tool_id@);
    assert(ids_of(views)[i] == cs[i].tool_id@);
    if a.contains(cs[i].tool_id@) {
        let j = choose|j: int| 0 <= j < cs.len() && answers(os[j]) && #[trigger] cs[j].tool_id@ == cs[i].tool_id@;
        if j != i {
            assert(ids_of(views)[j] == cs[j].tool_id@);
            if j < i {
                assert(ids_of(views)[j] != ids_of(views)[i]);
            } else {
                assert(ids_of(views)[i] != ids_of(views)[j]);
            }
        }
    }
}


/// After a tool turn is closed: the provider is called again unless the
/// operation was cancelled, in which case the turn ends and the next user
/// input is read.
pub fn call_provider_after_tools(cancelled: bool) -> (r: bool)
    ensures
        r == !cancelled,
{
    !cancelled
}

} // verus!
