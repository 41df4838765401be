//! Routing of tool calls, the large-response gate, loop detection, and the
//! gathering of parallel tool outcomes into results.
use vstd::prelude::*;
use vstd::string::*;
use crate::log::{text_tokens, MessageLog};
use crate::supervisor::{kind_of, server_kind, ServerHealth, ServerKind, ServerRegistry};
use crate::text::{decimal, decimal_of, list_contains, str_eq, to_owned_string};
use crate::tool_map::{get_server_for_tool, route_in, ToolMap};
use crate::tools::{encode_envelope, envelope_json, text_envelope, McpToolResult, ResultView};
use crate::config::McpServerConfig;

verus! {

/// A tool that fails this many times in a row is reported as a loop.
pub const MAX_CONSECUTIVE_ERRORS: u32 = 3;

/// The consecutive failures of one tool.
pub struct ToolErrorCount {
    pub tool: String,
    pub count: u32,
}

/// Consecutive failures per tool name.
pub struct ToolErrorTracker {
    counts: Vec<ToolErrorCount>,
}

/// The failure count of `name` in the first entry for it.
pub open spec fn count_in(s: Seq<(Seq<char>, u32)>, name: Seq<char>) -> u32
    decreases s.len(),
{
    if s.len() == 0 {
        0
    } else if s[0].0 == name {
        s[0].1
    } else {
        count_in(s.drop_first(), name)
    }
}

proof fn lemma_count_in_update(s: Seq<(Seq<char>, u32)>, k: int, name: Seq<char>, c: u32)
    requires
        0 <= k < s.len(),
        s[k].0 == name,
        forall|j: int| 0 <= j < k ==> (#[trigger] s[j]).0 != name,
    ensures
        forall|n: Seq<char>| #[trigger] count_in(s.update(k, (name, c)), n) == if n == name {
            c
        } else {
            count_in(s, n)
        },
    decreases k,
{
    let t = s.update(k, (name, c));
    assert(t.len() == s.len());
    if k == 0 {
        assert(t[0] == (name, c));
        assert(t.drop_first() =~= s.drop_first());
        assert forall|n: Seq<char>| #[trigger] count_in(t, n) == if n == name {
            c
        } else {
            count_in(s, n)
        } by {
            if n != name {
                assert(count_in(t, n) == count_in(t.drop_first(), n));
                assert(count_in(s, n) == count_in(s.drop_first(), n));
            }
        }
    } else {
        let s1 = s.drop_first();
        assert(t[0] == s[0]);
        assert(s[0].0 != name);
        assert(t.drop_first() =~= s1.update(k - 1, (name, c)));
        assert forall|j: int| 0 <= j < k - 1 implies (#[trigger] s1[j]).0 != name by {
            assert(s1[j] == s[j + 1]);
        }
        lemma_count_in_update(s1, k - 1, name, c);
        assert forall|n: Seq<char>| #[trigger] count_in(t, n) == if n == name {
            c
        } else {
            count_in(s, n)
        } by {
            if n != s[0].0 {
                assert(count_in(t, n) == count_in(t.drop_first(), n));
                assert(count_in(s, n) == count_in(s1, n));
                assert(count_in(s1.update(k - 1, (name, c)), n) == if n == name {
                    c
                } else {
                    count_in(s1, n)
                });
            }
        }
    }
}

proof fn lemma_count_in_push(s: Seq<(Seq<char>, u32)>, name: Seq<char>, c: u32)
    requires
        forall|j: int| 0 <= j < s.len() ==> (#[trigger] s[j]).0 != name,
    ensures
        forall|n: Seq<char>| #[trigger] count_in(s.push((name, c)), n) == if n == name {
            c
        } else {
            count_in(s, n)
        },
    decreases s.len(),
{
    let t = s.push((name, c));
    if s.len() > 0 {
        let s1 = s.drop_first();
        assert(t[0] == s[0]);
        assert(s[0].0 != name);
        assert(t.drop_first() =~= s1.push((name, c)));
        assert forall|j: int| 0 <= j < s1.len() implies (#[trigger] s1[j]).0 != name by {
            assert(s1[j] == s[j + 1]);
        }
        lemma_count_in_push(s1, name, c);
        assert forall|n: Seq<char>| #[trigger] count_in(t, n) == if n == name {
            c
        } else {
            count_in(s, n)
        } by {
            if n != s[0].0 {
                assert(count_in(t, n) == count_in(t.drop_first(), n));
                assert(count_in(s, n) == count_in(s1, n));
                assert(count_in(s1.push((name, c)), n) == if n == name {
                    c
                } else {
                    count_in(s1, n)
                });
            }
        }
    } else {
        assert(t[0] == (name, c));
        assert(t.drop_first() =~= Seq::<(Seq<char>, u32)>::empty());
        assert forall|n: Seq<char>| #[trigger] count_in(t, n) == if n == name {
            c
        } else {
            count_in(s, n)
        } by {
            if n != name {
                assert(count_in(t, n) == count_in(t.drop_first(), n));
                assert(count_in(t.drop_first(), n) == 0);
            }
        }
    }
}

impl ToolErrorTracker {
    pub closed spec fn counts(&self) -> Seq<(Seq<char>, u32)> {
        self.counts@.map_values(|e: ToolErrorCount| (e.tool@, e.count))
    }

    /// The consecutive failures recorded for `name`.
    pub open spec fn spec_count(&self, name: Seq<char>) -> u32 {
        count_in(self.counts(), name)
    }

    /// A tracker with no failures.
    pub fn new() -> (r: Self)
        ensures
            forall|n: Seq<char>| r.spec_count(n) == 0,
    {
        let r = ToolErrorTracker { counts: Vec::new() };
        assert(r.counts() =~= Seq::<(Seq<char>, u32)>::empty());
        r
    }

    /// The failure count that makes a loop.
    pub fn max_consecutive_errors(&self) -> (r: u32)
        ensures
            r == MAX_CONSECUTIVE_ERRORS,
    {
        MAX_CONSECUTIVE_ERRORS
    }

    fn find(&self, name: &str) -> (r: Option<usize>)
        ensures
            match r {
                Some(k) => k < self.counts().len() && self.counts()[k as int].0 == name@
                    && forall|j: int| 0 <= j < k ==> (#[trigger] self.counts()[j]).0 != name@,
                None => forall|j: int| 0 <= j < self.counts().len() ==> (#[trigger] self.counts()[j]).0 != name@,
            },
    {
        let mut i: usize = 0;
        while i < self.counts.len()
            invariant
                i <= self.counts@.len(),
                forall|j: int| 0 <= j < i ==> (#[trigger] self.counts()[j]).0 != name@,
            decreases self.counts.len() - i,
        {
            if str_eq(self.counts[i].tool.as_str(), name) {
                return Some(i);
            }
            i = i + 1;
        }
        None
    }

    proof fn lemma_count_at(&self, k: int, name: Seq<char>)
        requires
            0 <= k < self.counts().len(),
            self.counts()[k].0 == name,
            forall|j: int| 0 <= j < k ==> (#[trigger] self.counts()[j]).0 != name,
        ensures
            self.spec_count(name) == self.counts()[k].1,
        decreases k,
    {
        lemma_first_count(self.counts(), k, name);
    }

    fn set_count(&mut self, name: &str, c: u32)
        ensures
            forall|n: Seq<char>| #[trigger] final(self).spec_count(n) == if n == name@ {
                c
            } else {
                old(self).spec_count(n)
            },
    {
        match self.find(name) {
            Some(k) => {
                proof {
                    lemma_count_in_update(self.counts(), k as int, name@, c);
                }
                let tool = self.counts[k].tool.clone();
                self.counts.set(k, ToolErrorCount { tool, count: c });
                assert(self.counts() =~= old(self).counts().update(k as int, (name@, c)));
            },
            None => {
                proof {
                    lemma_count_in_push(self.counts(), name@, c);
                }
                self.counts.push(ToolErrorCount { tool: to_owned_string(name), count: c });
                assert(self.counts() =~= old(self).counts().push((name@, c)));
            },
        }
    }

    /// The consecutive failures of `name`.
    pub fn get_error_count(&self, tool_name: &str) -> (r: u32)
        ensures
            r == self.spec_count(tool_name@),
    {
        match self.find(tool_name) {
            Some(k) => {
                proof {
                    self.lemma_count_at(k as int, tool_name@);
                }
                self.counts[k].count
            },
            None => {
                proof {
                    lemma_absent_count(self.counts(), tool_name@);
                }
                0
            },
        }
    }

    /// Records a failure of `name`; true once it has failed
    /// [`MAX_CONSECUTIVE_ERRORS`] times in a row.
    pub fn record_error(&mut self, tool_name: &str) -> (r: bool)
        ensures
            final(self).spec_count(tool_name@) == if old(self).spec_count(tool_name@) == u32::MAX {
                u32::MAX
            } else {
                (old(self).spec_count(tool_name@) + 1) as u32
            },
            forall|n: Seq<char>| n != tool_name@ ==> #[trigger] final(self).spec_count(n) == old(self).spec_count(n),
            r == (final(self).spec_count(tool_name@) >= MAX_CONSECUTIVE_ERRORS),
    {
        let c = self.get_error_count(tool_name);
        let next = if c == u32::MAX {
            c
        } else {
            c + 1
        };
        self.set_count(tool_name, next);
        next >= MAX_CONSECUTIVE_ERRORS
    }

    /// Records a success of `name`: its failure streak ends.
    pub fn record_success(&mut self, tool_name: &str)
        ensures
            final(self).spec_count(tool_name@) == 0,
            forall|n: Seq<char>| n != tool_name@ ==> #[trigger] final(self).spec_count(n) == old(self).spec_count(n),
    {
        self.set_count(tool_name, 0);
    }
}

proof fn lemma_first_count(s: Seq<(Seq<char>, u32)>, k: int, name: Seq<char>)
    requires
        0 <= k < s.len(),
        s[k].0 == name,
        forall|j: int| 0 <= j < k ==> (#[trigger] s[j]).0 != name,
    ensures
        count_in(s, name) == s[k].1,
    decreases k,
{
    if k > 0 {
        assert forall|j: int| 0 <= j < k - 1 implies (#[trigger] s.drop_first()[j]).0 != name by {
            assert(s.drop_first()[j] == s[j + 1]);
        }
        assert(s[0].0 != name);
        lemma_first_count(s.drop_first(), k - 1, name);
    }
}

proof fn lemma_absent_count(s: Seq<(Seq<char>, u32)>, name: Seq<char>)
    requires
        forall|j: int| 0 <= j < s.len() ==> (#[trigger] s[j]).0 != name,
    ensures
        count_in(s, name) == 0,
    decreases s.len(),
{
    if s.len() > 0 {
        assert(s[0].0 != name);
        assert forall|j: int| 0 <= j < s.drop_first().len() implies (#[trigger] s.drop_first()[j]).0 != name by {
            assert(s.drop_first()[j] == s[j + 1]);
        }
        lemma_absent_count(s.drop_first(), name);
    }
}


/// Where tool calls are being executed: the main session (which counts
/// calls and tracks failures) or a layer (restricted to its tools).
pub enum ToolExecutionContext {
    MainSession { session_name: String, tool_calls: u64, error_tracker: ToolErrorTracker },
    Layer { session_name: String, allowed_tools: Vec<String>, layer_name: String },
}

impl ToolExecutionContext {
    /// The session name used for logging.
    pub fn session_name(&self) -> (r: &str)
        ensures
            r@ == match self {
                ToolExecutionContext::MainSession { session_name, .. } => session_name@,
                ToolExecutionContext::Layer { session_name, .. } => session_name@,
            },
    {
        match self {
            ToolExecutionContext::MainSession { session_name, .. } => session_name.as_str(),
            ToolExecutionContext::Layer { session_name, .. } => session_name.as_str(),
        }
    }

    /// The main session allows every tool; a layer those on its list (all
    /// when the list is empty).
    pub fn is_tool_allowed(&self, tool_name: &str) -> (r: bool)
        ensures
            r == match self {
                ToolExecutionContext::MainSession { .. } => true,
                ToolExecutionContext::Layer { allowed_tools, .. } => allowed_tools@.len() == 0
                    || exists|k: int| 0 <= k < allowed_tools@.len() && #[trigger] allowed_tools@[k]@ == tool_name@,
            },
    {
        match self {
            ToolExecutionContext::MainSession { .. } => true,
            ToolExecutionContext::Layer { allowed_tools, .. } => allowed_tools.len() == 0
                || list_contains(allowed_tools, tool_name),
        }
    }

    /// The failure tracker of the main session; layers have none.
    pub fn error_tracker(&self) -> (r: Option<&ToolErrorTracker>)
        ensures
            match self {
                ToolExecutionContext::MainSession { error_tracker, .. } => r == Some(error_tracker),
                ToolExecutionContext::Layer { .. } => r is None,
            },
    {
        match self {
            ToolExecutionContext::MainSession { error_tracker, .. } => Some(error_tracker),
            ToolExecutionContext::Layer { .. } => None,
        }
    }

    /// Counts one more tool call in the main session.
    pub fn increment_tool_calls(&mut self)
        ensures
            match (*old(self), *final(self)) {
                (
                    ToolExecutionContext::MainSession { session_name: a, tool_calls: n, .. },
                    ToolExecutionContext::MainSession { session_name: b, tool_calls: m, .. },
                ) => a == b && m == if n == u64::MAX {
                    n
                } else {
                    (n + 1) as u64
                },
                (ToolExecutionContext::Layer { .. }, _) => *final(self) == *old(self),
                _ => false,
            },
    {
        match self {
            ToolExecutionContext::MainSession { tool_calls, .. } => {
                if *tool_calls < u64::MAX {
                    *tool_calls = *tool_calls + 1;
                }
            },
            ToolExecutionContext::Layer { .. } => {},
        }
    }

    /// The user declined a tool's oversized output: in the main session its
    /// tool call leaves the open assistant message; layers keep no log here.
    pub fn handle_declined_output(&mut self, log: &mut MessageLog, tool_id: &str)
        requires
            old(log).wf(),
        ensures
            final(log).wf(),
            *final(self) == *old(self),
            match *old(self) {
                ToolExecutionContext::MainSession { .. } => if old(log)@.len() > 0 && old(log)@.last().role
                    == crate::log::Role::Assistant {
                    &&& final(log)@.len() == old(log)@.len()
                    &&& final(log)@.drop_last() == old(log)@.drop_last()
                    &&& final(log)@.last() == (crate::log::MessageView {
                        tool_calls: crate::log::keep_calls(old(log)@.last().tool_calls, seq![tool_id@], false),
                        ..old(log)@.last()
                    })
                    &&& final(log).pending() == crate::log::ids_of(final(log)@.last().tool_calls)
                } else {
                    final(log)@ == old(log)@ && final(log).pending() == old(log).pending()
                },
                ToolExecutionContext::Layer { .. } => final(log)@ == old(log)@,
            },
    {
        match self {
            ToolExecutionContext::MainSession { .. } => {
                let _ = log.decline_tool_call(tool_id);
            },
            ToolExecutionContext::Layer { .. } => {},
        }
    }
}

/// Why a tool call was not sent to a server.
#[derive(Debug, Clone, Copy, PartialEq, Eq, Structural)]
pub enum DispatchError {
    /// The operation was cancelled before the call started.
    Cancelled,
    /// No server offers the tool.
    UnknownTool,
    /// The server that offers it is not running; restarting is the health
    /// monitor's job.
    ServerUnavailable,
    /// The layer has no tool servers.
    ToolsDisabled,
    /// The tool is not on the layer's list.
    NotAllowed,
}

/// The server that may take a call of `tool_name`: cancellation first, then
/// the tool map, then the server's health: its recorded health must be
/// `Running`; a builtin or remote server that has no record yet counts as
/// running, a child-process server without one does not.
pub fn route_tool_call(
    map: &ToolMap,
    registry: &ServerRegistry,
    tool_name: &str,
    cancelled: bool,
) -> (r: Result<McpServerConfig, DispatchError>)
    requires
        registry.wf(),
    ensures
        cancelled ==> r == Err::<McpServerConfig, DispatchError>(DispatchError::Cancelled),
        !cancelled && (!map@.initialized || route_in(map@.routes, tool_name@) is None) ==> r == Err::<
            McpServerConfig,
            DispatchError,
        >(DispatchError::UnknownTool),
        !cancelled && map@.initialized && route_in(map@.routes, tool_name@) is Some ==> {
            let s = route_in(map@.routes, tool_name@)->0;
            let up = match registry.record(s.name()) {
                Some(v) => v.health_status == ServerHealth::Running,
                None => kind_of(s) != ServerKind::Process,
            };
            &&& up ==> r is Ok && r->Ok_0@ == s
            &&& !up ==> r == Err::<McpServerConfig, DispatchError>(DispatchError::ServerUnavailable)
        },
{
    if cancelled {
        return Err(DispatchError::Cancelled);
    }
    match get_server_for_tool(map, tool_name) {
        None => Err(DispatchError::UnknownTool),
        Some(server) => {
            let recorded = registry.get_server_restart_info(server.name());
            let known = registry.has_record(server.name());
            let up = if known {
                recorded.health_status() == ServerHealth::Running
            } else {
                match server_kind(&server) {
                    ServerKind::Process => false,
                    _ => true,
                }
            };
            if up {
                Ok(server)
            } else {
                Err(DispatchError::ServerUnavailable)
            }
        },
    }
}

/// The names joined with `", "`.
pub open spec fn joined(names: Seq<Seq<char>>) -> Seq<char>
    decreases names.len(),
{
    if names.len() == 0 {
        seq![]
    } else if names.len() == 1 {
        names[0]
    } else {
        joined(names.drop_last()) + ", "@ + names.last()
    }
}

/// The text returned to the model for a tool that no server offers.
pub open spec fn unknown_tool_text(tool: Seq<char>, available: Seq<Seq<char>>) -> Seq<char> {
    "Tool '"@ + tool + "' not found in any configured MCP server. Available tools: "@ + if available.len()
        == 0 {
        "none (tool map not initialized)"@
    } else {
        joined(available)
    }
}

/// The text returned to the model for a tool that no server offers, listing
/// the tools there are so that it can correct itself.
pub fn unknown_tool_message(tool_name: &str, available: &Vec<String>) -> (r: String)
    ensures
        r@ == unknown_tool_text(tool_name@, available@.map_values(|s: String| s@)),
{
    let ghost names = available@.map_values(|s: String| s@);
    let mut out = to_owned_string("Tool '");
    out.append(tool_name);
    out.append("' not found in any configured MCP server. Available tools: ");
    if available.len() == 0 {
        out.append("none (tool map not initialized)");
        return out;
    }
    let mut list = String::new();
    let mut i: usize = 0;
    while i < available.len()
        invariant
            i <= available@.len(),
            names == available@.map_values(|s: String| s@),
            list@ == joined(names.subrange(0, i as int)),
        decreases available.len() - i,
    {
        assert(names.subrange(0, i + 1).drop_last() =~= names.subrange(0, i as int));
        assert(names.subrange(0, i + 1).last() == available@[i as int]@);
        let ghost prev = list@;
        if i > 0 {
            list.append(", ");
        }
        list.append(available[i].as_str());
        if i == 0 {
            assert(list@ =~= available@[0]@);
        } else {
            assert(list@ =~= prev + ", "@ + available@[i as int]@);
        }
        i = i + 1;
    }
    assert(names.subrange(0, available@.len() as int) =~= names);
    out.append(list.as_str());
    out
}

/// A layer may call `tool_name` when it has tool servers and the tool is on
/// its list (or the list is empty).
pub fn check_layer_tool_call(server_refs: &Vec<String>, allowed_tools: &Vec<String>, tool_name: &str) -> (r:
    Result<(), DispatchError>)
    ensures
        server_refs@.len() == 0 ==> r == Err::<(), DispatchError>(DispatchError::ToolsDisabled),
        server_refs@.len() > 0 && allowed_tools@.len() > 0 && !(exists|k: int|
            0 <= k < allowed_tools@.len() && #[trigger] allowed_tools@[k]@ == tool_name@) ==> r == Err::<
            (),
            DispatchError,
        >(DispatchError::NotAllowed),
        r is Ok <==> (server_refs@.len() > 0 && (allowed_tools@.len() == 0 || exists|k: int|
            0 <= k < allowed_tools@.len() && #[trigger] allowed_tools@[k]@ == tool_name@)),
{
    if server_refs.len() == 0 {
        return Err(DispatchError::ToolsDisabled);
    }
    if allowed_tools.len() > 0 && !list_contains(allowed_tools, tool_name) {
        return Err(DispatchError::NotAllowed);
    }
    Ok(())
}

/// The estimated token count of a result as it is sent to the provider.
pub fn response_token_estimate(result: &McpToolResult) -> (r: u64)
    ensures
        r == text_tokens(envelope_json(result.result@)),
{
    let json = encode_envelope(&result.result);
    crate::log::estimate_tokens(json.as_str())
}

/// The text of the error result that replaces a declined oversized output.
pub open spec fn declined_text(tool: Seq<char>, tokens: u64) -> Seq<char> {
    "User declined to process large output from tool '"@ + tool + "' ("@ + decimal_of(tokens as nat)
        + " tokens). The tool executed successfully but the output was too large and the user chose not to include it in the conversation to avoid excessive token usage."@
}

/// The large-response gate: an output estimated at `threshold` tokens or
/// more needs the user's consent in interactive mode. Declined, it becomes an
/// error result saying so (and `true` comes back, so that the caller drops
/// the tool call); otherwise the result passes unchanged.
pub fn apply_large_response_decision(
    result: McpToolResult,
    estimated_tokens: u64,
    threshold: u64,
    interactive: bool,
    accepted: bool,
) -> (r: (McpToolResult, bool))
    ensures
        r.1 == (estimated_tokens >= threshold && interactive && !accepted),
        r.1 ==> r.0@ == (ResultView {
            tool_name: result.tool_name@,
            result: text_envelope(declined_text(result.tool_name@, estimated_tokens), true),
            tool_id: result.tool_id@,
        }),
        !r.1 ==> r.0@ == result@,
{
    if estimated_tokens >= threshold && interactive && !accepted {
        let mut text = to_owned_string("User declined to process large output from tool '");
        text.append(result.tool_name.as_str());
        text.append("' (");
        let n = decimal(estimated_tokens);
        text.append(n.as_str());
        text.append(
            " tokens). The tool executed successfully but the output was too large and the user chose not to include it in the conversation to avoid excessive token usage.",
        );
        let r = McpToolResult::error(result.tool_name, result.tool_id, text);
        (r, true)
    } else {
        (result, false)
    }
}

/// Whether an output of this size needs the user's consent.
pub fn needs_large_output_confirmation(estimated_tokens: u64, threshold: u64) -> (r: bool)
    ensures
        r == (estimated_tokens >= threshold),
{
    estimated_tokens >= threshold
}

/// The text of the error result for a failed tool call.
pub open spec fn failure_text(tool: Seq<char>, error: Seq<char>, looped: bool) -> Seq<char> {
    if looped {
        "LOOP DETECTED: Tool '"@ + tool + "' failed "@ + decimal_of(MAX_CONSECUTIVE_ERRORS as nat)
            + " consecutive times. Last error: "@ + error
            + ". Please try a completely different approach or ask the user for guidance."@
    } else {
        "Tool execution failed: "@ + error
    }
}

/// `c` plus one, stopping at the largest `u32`.
pub open spec fn bump(c: u32) -> u32 {
    if c == u32::MAX {
        c
    } else {
        (c + 1) as u32
    }
}

/// The context is the main session (which tracks failures).
pub open spec fn is_main(ctx: ToolExecutionContext) -> bool {
    ctx is MainSession
}

/// The consecutive failures the context records for `name` (none in a layer).
pub open spec fn tracker_count(ctx: ToolExecutionContext, name: Seq<char>) -> u32 {
    match ctx {
        ToolExecutionContext::MainSession { error_tracker, .. } => error_tracker.spec_count(name),
        ToolExecutionContext::Layer { .. } => 0,
    }
}

/// `b` is `a` with at most its failure tracker changed.
pub open spec fn same_session(a: ToolExecutionContext, b: ToolExecutionContext) -> bool {
    match (a, b) {
        (
            ToolExecutionContext::MainSession { session_name: n1, tool_calls: c1, .. },
            ToolExecutionContext::MainSession { session_name: n2, tool_calls: c2, .. },
        ) => n1 == n2 && c1 == c2,
        (ToolExecutionContext::Layer { .. }, _) => b == a,
        _ => false,
    }
}

impl ToolExecutionContext {
    /// A call of `name` succeeded: in the main session its failure streak ends.
    pub fn record_tool_success(&mut self, tool_name: &str)
        ensures
            same_session(*old(self), *final(self)),
            is_main(*old(self)) ==> forall|n: Seq<char>| #[trigger] tracker_count(*final(self), n) == if n == tool_name@ {
                0u32
            } else {
                tracker_count(*old(self), n)
            },
    {
        match self {
            ToolExecutionContext::MainSession { error_tracker, .. } => error_tracker.record_success(tool_name),
            ToolExecutionContext::Layer { .. } => {},
        }
    }
}

/// The error result for a failed call. In the main session the failure is
/// counted, and the third failure in a row of one tool becomes a loop
/// report telling the model to change its approach.
pub fn tool_failure_result(
    ctx: &mut ToolExecutionContext,
    tool_name: &str,
    tool_id: &str,
    error: &str,
) -> (r: McpToolResult)
    ensures
        r.tool_name@ == tool_name@,
        r.tool_id@ == tool_id@,
        r.result@ == text_envelope(
            failure_text(
                tool_name@,
                error@,
                is_main(*old(ctx)) && bump(tracker_count(*old(ctx), tool_name@)) >= MAX_CONSECUTIVE_ERRORS,
            ),
            true,
        ),
        same_session(*old(ctx), *final(ctx)),
        is_main(*old(ctx)) ==> forall|n: Seq<char>| #[trigger] tracker_count(*final(ctx), n) == if n == tool_name@ {
            bump(tracker_count(*old(ctx), tool_name@))
        } else {
            tracker_count(*old(ctx), n)
        },
{
    let looped = match ctx {
        ToolExecutionContext::MainSession { error_tracker, .. } => error_tracker.record_error(tool_name),
        ToolExecutionContext::Layer { .. } => false,
    };
    let mut text: String;
    if looped {
        text = to_owned_string("LOOP DETECTED: Tool '");
        text.append(tool_name);
        text.append("' failed ");
        let n = decimal(MAX_CONSECUTIVE_ERRORS as u64);
        text.append(n.as_str());
        text.append(" consecutive times. Last error: ");
        text.append(error);
        text.append(". Please try a completely different approach or ask the user for guidance.");
    } else {
        text = to_owned_string("Tool execution failed: ");
        text.append(error);
    }
    McpToolResult::error(to_owned_string(tool_name), to_owned_string(tool_id), text)
}

} // verus!
