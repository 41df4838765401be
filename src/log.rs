//! The conversation log: an ordered list of messages whose role sequence
//! keeps every tool call of an assistant message answered by exactly one
//! tool message before the conversation moves on.
use vstd::prelude::*;
use crate::text::{copy_opt_string, str_eq, to_owned_string};
use crate::tools::{CallView, McpToolCall, McpToolResult, encode_envelope, envelope_json};

verus! {

/// The author of a message.
#[derive(Debug, Clone, Copy, PartialEq, Eq, Structural)]
pub enum Role {
    System,
    User,
    Assistant,
    Tool,
}

/// One message of the conversation. `tool_calls` is empty for every message
/// but an assistant message that asks for tools; `tool_call_id` and `name`
/// are set on tool messages.
#[derive(Debug, PartialEq)]
pub struct Message {
    pub role: Role,
    pub content: String,
    pub timestamp: u64,
    pub cached: bool,
    pub tool_call_id: Option<String>,
    pub name: Option<String>,
    pub tool_calls: Vec<McpToolCall>,
}

pub struct MessageView {
    pub role: Role,
    pub content: Seq<char>,
    pub timestamp: u64,
    pub cached: bool,
    pub tool_call_id: Option<Seq<char>>,
    pub name: Option<Seq<char>>,
    pub tool_calls: Seq<CallView>,
}

impl View for Message {
    type V = MessageView;

    open spec fn view(&self) -> MessageView {
        MessageView {
            role: self.role,
            content: self.content@,
            timestamp: self.timestamp,
            cached: self.cached,
            tool_call_id: match self.tool_call_id {
                Some(s) => Some(s@),
                None => None,
            },
            name: match self.name {
                Some(s) => Some(s@),
                None => None,
            },
            tool_calls: self.tool_calls@.map_values(|c: McpToolCall| c@),
        }
    }
}

impl Clone for Message {
    fn clone(&self) -> (r: Self)
        ensures
            r@ == self@,
    {
        let mut calls: Vec<McpToolCall> = Vec::new();
        let mut i: usize = 0;
        while i < self.tool_calls.len()
            invariant
                i <= self.tool_calls@.len(),
                calls@.len() == i,
                forall|k: int| 0 <= k < i ==> #[trigger] calls@[k]@ == self.tool_calls@[k]@,
            decreases self.tool_calls.len() - i,
        {
            calls.push(self.tool_calls[i].clone());
            i = i + 1;
        }
        assert(calls@.map_values(|c: McpToolCall| c@) =~= self.tool_calls@.map_values(
            |c: McpToolCall| c@,
        ));
        Message {
            role: self.role,
            content: self.content.clone(),
            timestamp: self.timestamp,
            cached: self.cached,
            tool_call_id: copy_opt_string(&self.tool_call_id),
            name: copy_opt_string(&self.name),
            tool_calls: calls,
        }
    }
}

pub open spec fn message_views(v: Seq<Message>) -> Seq<MessageView> {
    v.map_values(|m: Message| m@)
}

/// The ids of the tool calls of a message.
pub open spec fn call_ids(m: MessageView) -> Seq<Seq<char>> {
    m.tool_calls.map_values(|c: CallView| c.tool_id)
}

/// The tool-call id a tool message answers (empty when missing).
pub open spec fn answered_id(m: MessageView) -> Seq<char> {
    match m.tool_call_id {
        Some(id) => id,
        None => seq![],
    }
}

/// No element occurs twice.
pub open spec fn no_dup(s: Seq<Seq<char>>) -> bool {
    forall|i: int, j: int| 0 <= i < j < s.len() ==> #[trigger] s[i] != #[trigger] s[j]
}

/// The number of occurrences of `x`.
pub open spec fn count_of(s: Seq<Seq<char>>, x: Seq<char>) -> nat
    decreases s.len(),
{
    if s.len() == 0 {
        0
    } else {
        count_of(s.drop_last(), x) + if s.last() == x {
            1nat
        } else {
            0nat
        }
    }
}

/// `p` with every occurrence of `x` taken out.
pub open spec fn without(p: Seq<Seq<char>>, x: Seq<char>) -> Seq<Seq<char>>
    decreases p.len(),
{
    if p.len() == 0 {
        seq![]
    } else if p.last() == x {
        without(p.drop_last(), x)
    } else {
        without(p.drop_last(), x).push(p.last())
    }
}

/// The pending ids after message `m` arrives with `p` pending; `None` where
/// the message may not come next. `first` tells whether the log was empty.
pub open spec fn step(p: Seq<Seq<char>>, m: MessageView, first: bool) -> Option<Seq<Seq<char>>> {
    match m.role {
        Role::System => if first && m.tool_calls.len() == 0 {
            Some(seq![])
        } else {
            None
        },
        Role::User => if p.len() == 0 && m.tool_calls.len() == 0 {
            Some(seq![])
        } else {
            None
        },
        Role::Assistant => if p.len() == 0 && no_dup(call_ids(m)) {
            Some(call_ids(m))
        } else {
            None
        },
        Role::Tool => if m.tool_calls.len() == 0 && p.contains(answered_id(m)) {
            Some(without(p, answered_id(m)))
        } else {
            None
        },
    }
}

/// The tool-call ids still waiting for a result after the whole log, or
/// `None` when the log breaks the role rules.
pub open spec fn scan(s: Seq<MessageView>) -> Option<Seq<Seq<char>>>
    decreases s.len(),
{
    if s.len() == 0 {
        Some(seq![])
    } else {
        match scan(s.drop_last()) {
            Some(p) => step(p, s.last(), s.len() == 1),
            None => None,
        }
    }
}

/// The ids answered by the tool messages that start at position `k`.
pub open spec fn run_from(s: Seq<MessageView>, k: int) -> Seq<Seq<char>>
    decreases s.len() - k,
{
    if 0 <= k < s.len() && s[k].role == Role::Tool {
        seq![answered_id(s[k])] + run_from(s, k + 1)
    } else {
        seq![]
    }
}

/// Every message from position `k` on is a tool message.
pub open spec fn tools_to_end(s: Seq<MessageView>, k: int) -> bool {
    forall|j: int| k <= j < s.len() ==> #[trigger] s[j].role == Role::Tool
}

/// Every tool call of every message is answered by exactly one of the tool
/// messages that directly follow that message.
pub open spec fn results_complete(s: Seq<MessageView>) -> bool {
    forall|i: int, k: int|
        0 <= i < s.len() && 0 <= k < s[i].tool_calls.len() ==> count_of(
            run_from(s, i + 1),
            #[trigger] s[i].tool_calls[k].tool_id,
        ) == 1
}

/// The number of messages that carry a cache marker.
pub open spec fn cached_count(s: Seq<MessageView>) -> nat
    decreases s.len(),
{
    if s.len() == 0 {
        0
    } else {
        cached_count(s.drop_last()) + if s.last().cached {
            1nat
        } else {
            0nat
        }
    }
}

/// At most this many messages carry a cache marker at once.
pub const CACHE_MARKER_BUDGET: usize = 4;


proof fn lemma_without(p: Seq<Seq<char>>, x: Seq<char>)
    requires
        no_dup(p),
    ensures
        no_dup(without(p, x)),
        forall|y: Seq<char>| #[trigger] without(p, x).contains(y) <==> (p.contains(y) && y != x),
        without(p, x).len() <= p.len(),
    decreases p.len(),
{
    if p.len() > 0 {
        let q = p.drop_last();
        assert(no_dup(q)) by {
            assert forall|i: int, j: int| 0 <= i < j < q.len() implies #[trigger] q[i] != #[trigger] q[j] by {
                assert(q[i] == p[i] && q[j] == p[j]);
            }
        }
        lemma_without(q, x);
        let w = without(q, x);
        assert forall|y: Seq<char>| p.contains(y) <==> (q.contains(y) || y == p.last()) by {
            if p.contains(y) {
                let k = choose|k: int| 0 <= k < p.len() && p[k] == y;
                if k < p.len() - 1 {
                    assert(q[k] == y);
                }
            }
            if q.contains(y) {
                let k = choose|k: int| 0 <= k < q.len() && q[k] == y;
                assert(p[k] == y);
            }
            if y == p.last() {
                assert(p[p.len() - 1] == y);
            }
        }
        if p.last() != x {
            let w2 = w.push(p.last());
            assert forall|y: Seq<char>| #[trigger] w2.contains(y) <==> (w.contains(y) || y == p.last()) by {
                if w2.contains(y) {
                    let k = choose|k: int| 0 <= k < w2.len() && w2[k] == y;
                    if k < w.len() {
                        assert(w[k] == y);
                    }
                }
                if w.contains(y) {
                    let k = choose|k: int| 0 <= k < w.len() && w[k] == y;
                    assert(w2[k] == y);
                }
                if y == p.last() {
                    assert(w2[w.len() as int] == y);
                }
            }
            assert(!q.contains(p.last())) by {
                if q.contains(p.last()) {
                    let k = choose|k: int| 0 <= k < q.len() && q[k] == p.last();
                    assert(p[k] != p[p.len() - 1]);
                }
            }
            assert forall|i: int, j: int| 0 <= i < j < w2.len() implies #[trigger] w2[i] != #[trigger] w2[j] by {
                if j == w.len() {
                    assert(w.contains(w2[i]));
                } else {
                    assert(w2[i] == w[i] && w2[j] == w[j]);
                }
            }
        }
    }
}

proof fn lemma_count_push(q: Seq<Seq<char>>, y: Seq<char>, x: Seq<char>)
    ensures
        count_of(q.push(y), x) == count_of(q, x) + if y == x {
            1nat
        } else {
            0nat
        },
{
    assert(q.push(y).drop_last() =~= q);
}

proof fn lemma_run_push(s: Seq<MessageView>, m: MessageView, k: int)
    requires
        0 <= k <= s.len(),
    ensures
        run_from(s.push(m), k) == if tools_to_end(s, k) && m.role == Role::Tool {
            run_from(s, k).push(answered_id(m))
        } else {
            run_from(s, k)
        },
    decreases s.len() - k,
{
    let t = s.push(m);
    if k == s.len() {
        assert(run_from(s, k) == Seq::<Seq<char>>::empty());
        assert(run_from(t, k + 1) == Seq::<Seq<char>>::empty());
        if m.role == Role::Tool {
            assert(run_from(t, k) =~= seq![answered_id(m)]);
        }
    } else {
        assert(t[k] == s[k]);
        if s[k].role == Role::Tool {
            lemma_run_push(s, m, k + 1);
            assert(run_from(t, k) == seq![answered_id(s[k])] + run_from(t, k + 1));
            assert(run_from(s, k) == seq![answered_id(s[k])] + run_from(s, k + 1));
            if tools_to_end(s, k) {
                assert(tools_to_end(s, k + 1));
                if m.role == Role::Tool {
                    assert(run_from(t, k) =~= run_from(s, k).push(answered_id(m)));
                } else {
                    assert(run_from(t, k) =~= run_from(s, k));
                }
            } else {
                assert(!tools_to_end(s, k + 1)) by {
                    let j = choose|j: int| k <= j < s.len() && s[j].role != Role::Tool;
                    assert(j != k);
                }
                assert(run_from(t, k) =~= run_from(s, k));
            }
        } else {
            assert(!tools_to_end(s, k));
        }
    }
}

/// What the role rules guarantee of a log that passes them, whatever is
/// still pending.
pub open spec fn scan_facts(s: Seq<MessageView>, p: Seq<Seq<char>>) -> bool {
    &&& no_dup(p)
    &&& forall|i: int, k: int|
        0 <= i < s.len() && 0 <= k < s[i].tool_calls.len() ==> count_of(
            run_from(s, i + 1),
            #[trigger] s[i].tool_calls[k].tool_id,
        ) == if tools_to_end(s, i + 1) && p.contains(s[i].tool_calls[k].tool_id) {
            0nat
        } else {
            1nat
        }
    &&& forall|i: int| 0 <= i < s.len() && s[i].role != Role::Assistant ==> (#[trigger] s[i]).tool_calls.len() == 0
    &&& forall|i: int| 0 <= i < s.len() && s[i].role == Role::Assistant ==> no_dup(call_ids(#[trigger] s[i]))
    &&& forall|i: int| 1 <= i < s.len() ==> (#[trigger] s[i]).role != Role::System
    &&& p.len() > 0 ==> exists|h: int|
        0 <= h < s.len() && s[h].role == Role::Assistant && tools_to_end(s, h + 1) && forall|x: Seq<char>|
            p.contains(x) ==> #[trigger] call_ids(s[h]).contains(x)
}

/// A log that obeys the role rules has the facts of [`scan_facts`] with
/// what it leaves pending.
pub proof fn lemma_scan_facts(s: Seq<MessageView>)
    requires
        scan(s) is Some,
    ensures
        scan_facts(s, scan(s)->0),
    decreases s.len(),
{
    if s.len() > 0 {
        let s0 = s.drop_last();
        let m = s.last();
        assert(s0.push(m) =~= s);
        lemma_scan_facts(s0);
        let p0 = scan(s0)->0;
        let p = scan(s)->0;
        let n0 = s0.len() as int;
        assert(s[n0] == m);
        assert forall|i: int| 0 <= i < n0 implies #[trigger] s[i] == s0[i] by {}
        assert forall|i: int| 0 <= i < n0 implies #[trigger] run_from(s, i + 1) == if tools_to_end(s0, i + 1) && m.role == Role::Tool {
            run_from(s0, i + 1).push(answered_id(m))
        } else {
            run_from(s0, i + 1)
        } by {
            lemma_run_push(s0, m, i + 1);
        }
        assert(run_from(s, n0 + 1) == Seq::<Seq<char>>::empty());
        match m.role {
            Role::Tool => {
                let id = answered_id(m);
                lemma_without(p0, id);
                let h = choose|h: int|
                    0 <= h < s0.len() && s0[h].role == Role::Assistant && tools_to_end(s0, h + 1) && forall|x: Seq<char>|
                        p0.contains(x) ==> #[trigger] call_ids(s0[h]).contains(x);
                assert forall|i: int, k: int|
                    0 <= i < s.len() && 0 <= k < s[i].tool_calls.len() implies count_of(
                        run_from(s, i + 1),
                        #[trigger] s[i].tool_calls[k].tool_id,
                    ) == if tools_to_end(s, i + 1) && p.contains(s[i].tool_calls[k].tool_id) {
                        0nat
                    } else {
                        1nat
                    } by {
                    let x = s[i].tool_calls[k].tool_id;
                    if i < n0 {
                        if tools_to_end(s0, i + 1) {
                            assert(tools_to_end(s, i + 1));
                            lemma_count_push(run_from(s0, i + 1), id, x);
                            if i != h {
                                if i < h {
                                    assert(s0[h].role == Role::Tool);
                                } else {
                                    assert(s0[i].role == Role::Tool);
                                    assert(s0[i].tool_calls.len() == 0);
                                }
                            }
                            if x == id {
                                assert(!p.contains(x));
                            }
                        } else {
                            assert(!tools_to_end(s, i + 1)) by {
                                let j = choose|j: int| i + 1 <= j < s0.len() && s0[j].role != Role::Tool;
                                assert(s[j] == s0[j]);
                            }
                        }
                    }
                }
                assert forall|x: Seq<char>| p.contains(x) implies #[trigger] call_ids(s[h]).contains(x) by {
                    assert(p0.contains(x));
                    assert(call_ids(s0[h]).contains(x));
                }
                assert(tools_to_end(s, h + 1));
            },
            Role::Assistant => {
                assert forall|i: int, k: int|
                    0 <= i < s.len() && 0 <= k < s[i].tool_calls.len() implies count_of(
                        run_from(s, i + 1),
                        #[trigger] s[i].tool_calls[k].tool_id,
                    ) == if tools_to_end(s, i + 1) && p.contains(s[i].tool_calls[k].tool_id) {
                        0nat
                    } else {
                        1nat
                    } by {
                    if i < n0 {
                        assert(!tools_to_end(s, i + 1)) by {
                            assert(s[n0].role != Role::Tool);
                        }
                    } else {
                        let x = s[i].tool_calls[k].tool_id;
                        assert(call_ids(m)[k] == x);
                        assert(p.contains(x));
                    }
                }
                if p.len() > 0 {
                    assert(tools_to_end(s, n0 + 1));
                    assert forall|x: Seq<char>| p.contains(x) implies #[trigger] call_ids(s[n0]).contains(x) by {}
                }
            },
            _ => {
                assert forall|i: int, k: int|
                    0 <= i < s.len() && 0 <= k < s[i].tool_calls.len() implies count_of(
                        run_from(s, i + 1),
                        #[trigger] s[i].tool_calls[k].tool_id,
                    ) == if tools_to_end(s, i + 1) && p.contains(s[i].tool_calls[k].tool_id) {
                        0nat
                    } else {
                        1nat
                    } by {
                    if i < n0 {
                        assert(!tools_to_end(s, i + 1)) by {
                            assert(s[n0].role != Role::Tool);
                        }
                    }
                }
            },
        }
    }
}

/// Tool-result completeness: once nothing is pending, every tool call of
/// every assistant message in a log that obeys the role rules is answered by
/// exactly one tool message among those that directly follow it.
pub proof fn lemma_idle_log_complete(s: Seq<MessageView>)
    requires
        scan(s) == Some(Seq::<Seq<char>>::empty()),
    ensures
        results_complete(s),
{
    lemma_scan_facts(s);
}


/// Why a message was not appended.
#[derive(Debug, Clone, Copy, PartialEq, Eq, Structural)]
pub enum LogError {
    /// A system message may only open the log.
    SystemNotFirst,
    /// Tool results are still owed to the last assistant message.
    ToolResultsPending,
    /// A tool message answers no pending tool call.
    UnexpectedToolResult,
    /// Two tool calls of one assistant message share an id.
    DuplicateToolCallId,
    /// Only assistant messages carry tool calls.
    ToolCallsNotAllowed,
    /// The last message is not an assistant message still waiting for all
    /// of its tool results.
    NoOpenToolTurn,
}

/// The conversation log. Appends are checked against the role rules, so
/// the log always passes them; `pending` holds the ids of the tool calls
/// still waiting for a result.
pub struct MessageLog {
    messages: Vec<Message>,
    pending: Vec<String>,
}

impl View for MessageLog {
    type V = Seq<MessageView>;

    closed spec fn view(&self) -> Seq<MessageView> {
        message_views(self.messages@)
    }
}

pub open spec fn str_views(v: Seq<String>) -> Seq<Seq<char>> {
    v.map_values(|s: String| s@)
}

/// The view of `m` with its cache marker set to `c`.
pub open spec fn with_cached(m: MessageView, c: bool) -> MessageView {
    MessageView { cached: c, ..m }
}

fn contains_id(p: &Vec<String>, x: &str) -> (r: bool)
    ensures
        r == str_views(p@).contains(x@),
{
    let mut i: usize = 0;
    while i < p.len()
        invariant
            i <= p@.len(),
            forall|k: int| 0 <= k < i ==> #[trigger] p@[k]@ != x@,
        decreases p.len() - i,
    {
        if str_eq(p[i].as_str(), x) {
            assert(str_views(p@)[i as int] == x@);
            return true;
        }
        i = i + 1;
    }
    assert(!str_views(p@).contains(x@)) by {
        if str_views(p@).contains(x@) {
            let k = choose|k: int| 0 <= k < str_views(p@).len() && str_views(p@)[k] == x@;
            assert(p@[k]@ == x@);
        }
    }
    false
}

fn without_id(p: &Vec<String>, x: &str) -> (r: Vec<String>)
    ensures
        str_views(r@) == without(str_views(p@), x@),
{
    let ghost ps = str_views(p@);
    let mut out: Vec<String> = Vec::new();
    let mut i: usize = 0;
    while i < p.len()
        invariant
            i <= p@.len(),
            ps == str_views(p@),
            str_views(out@) == without(ps.subrange(0, i as int), x@),
        decreases p.len() - i,
    {
        assert(ps.subrange(0, i + 1).drop_last() =~= ps.subrange(0, i as int));
        assert(ps.subrange(0, i + 1).last() == p@[i as int]@);
        if !str_eq(p[i].as_str(), x) {
            let ghost before = str_views(out@);
            out.push(p[i].clone());
            assert(str_views(out@) =~= before.push(p@[i as int]@));
        }
        i = i + 1;
    }
    assert(ps.subrange(0, p@.len() as int) =~= ps);
    out
}

/// The ids of a list of tool calls.
fn ids_of_calls(calls: &Vec<McpToolCall>) -> (r: Vec<String>)
    ensures
        str_views(r@) == calls@.map_values(|c: McpToolCall| c@).map_values(|c: CallView| c.tool_id),
{
    let mut out: Vec<String> = Vec::new();
    let mut i: usize = 0;
    while i < calls.len()
        invariant
            i <= calls@.len(),
            out@.len() == i,
            forall|k: int| 0 <= k < i ==> #[trigger] out@[k]@ == calls@[k].tool_id@,
        decreases calls.len() - i,
    {
        out.push(calls[i].tool_id.clone());
        i = i + 1;
    }
    assert(str_views(out@) =~= calls@.map_values(|c: McpToolCall| c@).map_values(
        |c: CallView| c.tool_id,
    ));
    out
}

fn distinct_ids(ids: &Vec<String>) -> (r: bool)
    ensures
        r == no_dup(str_views(ids@)),
{
    let ghost v = str_views(ids@);
    let mut i: usize = 0;
    while i < ids.len()
        invariant
            i <= ids@.len(),
            v == str_views(ids@),
            forall|a: int, b: int| 0 <= a < b < ids@.len() && a < i ==> #[trigger] v[a] != #[trigger] v[b],
        decreases ids.len() - i,
    {
        let mut j: usize = i + 1;
        while j < ids.len()
            invariant
                i < ids@.len(),
                i + 1 <= j <= ids@.len(),
                v == str_views(ids@),
                forall|a: int, b: int| 0 <= a < b < ids@.len() && a < i ==> #[trigger] v[a] != #[trigger] v[b],
                forall|b: int| i < b < j ==> v[i as int] != #[trigger] v[b],
            decreases ids.len() - j,
        {
            if str_eq(ids[i].as_str(), ids[j].as_str()) {
                assert(v[i as int] == v[j as int]);
                return false;
            }
            j = j + 1;
        }
        i = i + 1;
    }
    true
}

impl MessageLog {
    /// The log's invariant: it passes the role rules with `pending` still
    /// owed, and holds no more cache markers than the budget.
    pub closed spec fn wf(&self) -> bool {
        &&& scan(self@) == Some(str_views(self.pending@))
        &&& cached_count(self@) <= CACHE_MARKER_BUDGET
    }

    /// The tool-call ids still waiting for a result.
    pub closed spec fn pending(&self) -> Seq<Seq<char>> {
        str_views(self.pending@)
    }

    pub proof fn lemma_wf(&self)
        requires
            self.wf(),
        ensures
            scan(self@) == Some(self.pending()),
            cached_count(self@) <= CACHE_MARKER_BUDGET,
    {
    }

    /// An empty log.
    pub fn new() -> (r: Self)
        ensures
            r.wf(),
            r@.len() == 0,
            r.pending().len() == 0,
    {
        let r = MessageLog { messages: Vec::new(), pending: Vec::new() };
        assert(r@ =~= Seq::<MessageView>::empty());
        assert(str_views(r.pending@) =~= Seq::<Seq<char>>::empty());
        r
    }

    /// The messages, oldest first.
    pub fn messages(&self) -> (r: &Vec<Message>)
        ensures
            message_views(r@) == self@,
    {
        &self.messages
    }

    pub fn len(&self) -> (r: usize)
        ensures
            r == self@.len(),
    {
        self.messages.len()
    }

    /// No tool result is owed.
    pub fn is_idle(&self) -> (r: bool)
        requires
            self.wf(),
        ensures
            r == (self.pending().len() == 0),
    {
        self.pending.len() == 0
    }

    /// Appends `m` (its cache marker cleared; markers are placed by
    /// [`MessageLog::mark_cached`]) where the role rules allow it next.
    pub fn append(&mut self, m: Message) -> (r: Result<(), LogError>)
        requires
            old(self).wf(),
        ensures
            final(self).wf(),
            r is Ok <==> step(old(self).pending(), m@, old(self)@.len() == 0) is Some,
            r is Ok ==> final(self)@ == old(self)@.push(with_cached(m@, false)),
            r is Err ==> final(self)@ == old(self)@ && final(self).pending() == old(self).pending(),
    {
        let ghost first = self.messages@.len() == 0;
        let ghost mv = with_cached(m@, false);
        assert(step(self.pending(), mv, first) == step(self.pending(), m@, first));
        let mut m = m;
        m.cached = false;
        assert(m@ == mv);
        let new_pending: Vec<String>;
        match m.role {
            Role::System => {
                if self.messages.len() != 0 {
                    return Err(LogError::SystemNotFirst);
                }
                if m.tool_calls.len() != 0 {
                    return Err(LogError::ToolCallsNotAllowed);
                }
                new_pending = Vec::new();
                assert(str_views(new_pending@) =~= Seq::<Seq<char>>::empty());
            },
            Role::User => {
                if self.pending.len() != 0 {
                    return Err(LogError::ToolResultsPending);
                }
                if m.tool_calls.len() != 0 {
                    return Err(LogError::ToolCallsNotAllowed);
                }
                new_pending = Vec::new();
                assert(str_views(new_pending@) =~= Seq::<Seq<char>>::empty());
            },
            Role::Assistant => {
                if self.pending.len() != 0 {
                    return Err(LogError::ToolResultsPending);
                }
                let ids = ids_of_calls(&m.tool_calls);
                if !distinct_ids(&ids) {
                    return Err(LogError::DuplicateToolCallId);
                }
                new_pending = ids;
            },
            Role::Tool => {
                if m.tool_calls.len() != 0 {
                    return Err(LogError::ToolCallsNotAllowed);
                }
                let id: &str = match &m.tool_call_id {
                    Some(s) => s.as_str(),
                    None => "",
                };
                assert(id@ == answered_id(m@)) by {
                    reveal_strlit("");
                }
                if !contains_id(&self.pending, id) {
                    return Err(LogError::UnexpectedToolResult);
                }
                new_pending = without_id(&self.pending, id);
            },
        }
        let ghost before = self@;
        self.messages.push(m);
        self.pending = new_pending;
        assert(self@ =~= before.push(mv));
        assert(self@.drop_last() =~= before);
        assert(str_views(new_pending@) =~= str_views(self.pending@));
        assert(scan(self@) == step(scan(before)->0, mv, before.len() == 0));
        assert(step(str_views(old(self).pending@), mv, before.len() == 0) == Some(str_views(new_pending@)));
        assert(cached_count(self@) == cached_count(before));
        Ok(())
    }
}


/// The calls whose id is (`inside`) or is not (`!inside`) among `ids`, in order.
pub open spec fn keep_calls(cs: Seq<CallView>, ids: Seq<Seq<char>>, inside: bool) -> Seq<CallView>
    decreases cs.len(),
{
    if cs.len() == 0 {
        seq![]
    } else if ids.contains(cs.last().tool_id) == inside {
        keep_calls(cs.drop_last(), ids, inside).push(cs.last())
    } else {
        keep_calls(cs.drop_last(), ids, inside)
    }
}

pub open spec fn ids_of(cs: Seq<CallView>) -> Seq<Seq<char>> {
    cs.map_values(|c: CallView| c.tool_id)
}

/// Keeping calls by id keeps their ids distinct, and keeps exactly the
/// ids asked for.
pub proof fn lemma_keep_calls(cs: Seq<CallView>, ids: Seq<Seq<char>>, inside: bool)
    requires
        no_dup(ids_of(cs)),
    ensures
        no_dup(ids_of(keep_calls(cs, ids, inside))),
        forall|x: Seq<char>| #[trigger] ids_of(keep_calls(cs, ids, inside)).contains(x) <==> (ids_of(cs).contains(x) && ids.contains(x) == inside),
    decreases cs.len(),
{
    if cs.len() > 0 {
        let q = cs.drop_last();
        let c = cs.last();
        assert(ids_of(cs) =~= ids_of(q).push(c.tool_id));
        assert(no_dup(ids_of(q))) by {
            assert forall|i: int, j: int| 0 <= i < j < ids_of(q).len() implies #[trigger] ids_of(q)[i] != #[trigger] ids_of(q)[j] by {
                assert(ids_of(q)[i] == ids_of(cs)[i] && ids_of(q)[j] == ids_of(cs)[j]);
            }
        }
        lemma_keep_calls(q, ids, inside);
        let k = keep_calls(q, ids, inside);
        assert(!ids_of(q).contains(c.tool_id)) by {
            if ids_of(q).contains(c.tool_id) {
                let i = choose|i: int| 0 <= i < ids_of(q).len() && ids_of(q)[i] == c.tool_id;
                assert(ids_of(cs)[i] != ids_of(cs)[cs.len() - 1]);
            }
        }
        assert forall|x: Seq<char>| ids_of(cs).contains(x) <==> (ids_of(q).contains(x) || x == c.tool_id) by {
            if ids_of(cs).contains(x) {
                let i = choose|i: int| 0 <= i < ids_of(cs).len() && ids_of(cs)[i] == x;
                if i < q.len() {
                    assert(ids_of(q)[i] == x);
                }
            }
            if ids_of(q).contains(x) {
                let i = choose|i: int| 0 <= i < ids_of(q).len() && ids_of(q)[i] == x;
                assert(ids_of(cs)[i] == x);
            }
            if x == c.tool_id {
                assert(ids_of(cs)[cs.len() - 1] == x);
            }
        }
        if ids.contains(c.tool_id) == inside {
            let k2 = k.push(c);
            assert(ids_of(k2) =~= ids_of(k).push(c.tool_id));
            assert forall|x: Seq<char>| #[trigger] ids_of(k2).contains(x) <==> (ids_of(k).contains(x) || x == c.tool_id) by {
                if ids_of(k2).contains(x) {
                    let i = choose|i: int| 0 <= i < ids_of(k2).len() && ids_of(k2)[i] == x;
                    if i < k.len() {
                        assert(ids_of(k)[i] == x);
                    }
                }
                if ids_of(k).contains(x) {
                    let i = choose|i: int| 0 <= i < ids_of(k).len() && ids_of(k)[i] == x;
                    assert(ids_of(k2)[i] == x);
                }
                if x == c.tool_id {
                    assert(ids_of(k2)[k.len() as int] == x);
                }
            }
            assert forall|i: int, j: int| 0 <= i < j < ids_of(k2).len() implies #[trigger] ids_of(k2)[i] != #[trigger] ids_of(k2)[j] by {
                if j == k.len() {
                    assert(ids_of(k).contains(ids_of(k2)[i]));
                } else {
                    assert(ids_of(k2)[i] == ids_of(k)[i] && ids_of(k2)[j] == ids_of(k)[j]);
                }
            }
        }
    }
}

fn filter_calls(calls: &Vec<McpToolCall>, ids: &Vec<String>, inside: bool) -> (r: Vec<McpToolCall>)
    ensures
        r@.map_values(|c: McpToolCall| c@) == keep_calls(
            calls@.map_values(|c: McpToolCall| c@),
            str_views(ids@),
            inside,
        ),
{
    let ghost cs = calls@.map_values(|c: McpToolCall| c@);
    let mut out: Vec<McpToolCall> = Vec::new();
    let mut i: usize = 0;
    while i < calls.len()
        invariant
            i <= calls@.len(),
            cs == calls@.map_values(|c: McpToolCall| c@),
            out@.map_values(|c: McpToolCall| c@) == keep_calls(cs.subrange(0, i as int), str_views(ids@), inside),
        decreases calls.len() - i,
    {
        assert(cs.subrange(0, i + 1).drop_last() =~= cs.subrange(0, i as int));
        assert(cs.subrange(0, i + 1).last() == calls@[i as int]@);
        if contains_id(ids, calls[i].tool_id.as_str()) == inside {
            let ghost before = out@.map_values(|c: McpToolCall| c@);
            out.push(calls[i].clone());
            assert(out@.map_values(|c: McpToolCall| c@) =~= before.push(calls@[i as int]@));
        }
        i = i + 1;
    }
    assert(cs.subrange(0, calls@.len() as int) =~= cs);
    out
}

/// The tool message that carries result `res`.
pub open spec fn tool_message_view(res: McpToolResult, now: u64) -> MessageView {
    MessageView {
        role: Role::Tool,
        content: envelope_json(res.result@),
        timestamp: now,
        cached: false,
        tool_call_id: Some(res.tool_id@),
        name: Some(res.tool_name@),
        tool_calls: seq![],
    }
}

/// The positions, among the first `n` results, of those that get a tool
/// message: the first result for each id in `keep`.
pub open spec fn appended_positions(rs: Seq<McpToolResult>, keep: Seq<Seq<char>>, n: int) -> Seq<int>
    decreases n,
{
    if n <= 0 {
        seq![]
    } else {
        let id = rs[n - 1].tool_id@;
        if keep.contains(id) && !result_ids(rs.take(n - 1)).contains(id) {
            appended_positions(rs, keep, n - 1).push(n - 1)
        } else {
            appended_positions(rs, keep, n - 1)
        }
    }
}

/// The tool messages for the results at positions `ps`, in order.
pub open spec fn tool_messages(rs: Seq<McpToolResult>, ps: Seq<int>, now: u64) -> Seq<MessageView> {
    ps.map_values(|p: int| tool_message_view(rs[p], now))
}

/// The ids the results answer, in order.
pub open spec fn result_ids(rs: Seq<McpToolResult>) -> Seq<Seq<char>> {
    rs.map_values(|r: McpToolResult| r.tool_id@)
}

fn ids_of_results(results: &Vec<McpToolResult>) -> (r: Vec<String>)
    ensures
        str_views(r@) == result_ids(results@),
{
    let mut out: Vec<String> = Vec::new();
    let mut i: usize = 0;
    while i < results.len()
        invariant
            i <= results@.len(),
            out@.len() == i,
            forall|k: int| 0 <= k < i ==> #[trigger] out@[k]@ == results@[k].tool_id@,
        decreases results.len() - i,
    {
        out.push(results[i].tool_id.clone());
        i = i + 1;
    }
    assert(str_views(out@) =~= result_ids(results@));
    out
}

impl MessageLog {
    /// Replaces the tool calls of the last message, an assistant message
    /// still waiting for all of its results, by those of its calls whose id
    /// is (or, with `!inside`, is not) among `ids`.
    fn narrow_open_turn(&mut self, ids: &Vec<String>, inside: bool)
        requires
            old(self).wf(),
            old(self)@.len() > 0,
            old(self)@.last().role == Role::Assistant,
        ensures
            final(self).wf(),
            final(self)@.len() == old(self)@.len(),
            final(self)@.drop_last() == old(self)@.drop_last(),
            final(self)@.last() == (MessageView {
                tool_calls: keep_calls(old(self)@.last().tool_calls, str_views(ids@), inside),
                ..old(self)@.last()
            }),
            final(self).pending() == ids_of(final(self)@.last().tool_calls),
    {
        let ghost s = self@;
        let ghost s0 = s.drop_last();
        let ghost a = s.last();
        assert(s0.push(a) =~= s);
        assert(scan(s) == step(scan(s0)->0, a, s.len() == 1));
        let n = self.messages.len();
        let last = self.messages[n - 1].clone();
        let calls = filter_calls(&last.tool_calls, ids, inside);
        proof {
            assert(call_ids(a) =~= ids_of(a.tool_calls));
            lemma_keep_calls(a.tool_calls, str_views(ids@), inside);
        }
        let new_ids = ids_of_calls(&calls);
        let msg = Message {
            role: last.role,
            content: last.content,
            timestamp: last.timestamp,
            cached: last.cached,
            tool_call_id: last.tool_call_id,
            name: last.name,
            tool_calls: calls,
        };
        let ghost mv = msg@;
        self.messages.set(n - 1, msg);
        self.pending = new_ids;
        assert(self@ =~= s0.push(mv));
        assert(self@.drop_last() =~= s0);
        assert(call_ids(mv) =~= ids_of(mv.tool_calls));
        assert(str_views(self.pending@) =~= call_ids(mv));
        assert(cached_count(self@) == cached_count(s));
    }

    /// Closes the open tool turn with the results that arrived: the last
    /// message (an assistant message still waiting for all of its results)
    /// keeps only the tool calls that have a result, and one tool message
    /// per such call follows it, in the order the results came. Results for
    /// ids it did not ask for, and repeated ids, are left out. Nothing is
    /// then pending.
    pub fn complete_tool_turn(&mut self, results: &Vec<McpToolResult>, now: u64) -> (r: Result<
        (),
        LogError,
    >)
        requires
            old(self).wf(),
        ensures
            final(self).wf(),
            r is Ok <==> (old(self)@.len() > 0 && old(self)@.last().role == Role::Assistant),
            r is Err ==> final(self)@ == old(self)@ && final(self).pending() == old(self).pending(),
            r is Ok ==> {
                let n = old(self)@.len() as int;
                &&& final(self).pending().len() == 0
                &&& final(self)@.len() >= n
                &&& final(self)@.subrange(0, n - 1) == old(self)@.subrange(0, n - 1)
                &&& final(self)@[n - 1] == (MessageView {
                    tool_calls: keep_calls(old(self)@.last().tool_calls, result_ids(results@), true),
                    ..old(self)@.last()
                })
                &&& final(self)@.subrange(n, final(self)@.len() as int) == tool_messages(
                    results@,
                    appended_positions(
                        results@,
                        ids_of(keep_calls(old(self)@.last().tool_calls, result_ids(results@), true)),
                        results@.len() as int,
                    ),
                    now,
                )
                &&& forall|j: int|
                    n <= j < final(self)@.len() ==> {
                        &&& (#[trigger] final(self)@[j]).role == Role::Tool
                        &&& exists|k: int|
                            0 <= k < results@.len() && results@[k].tool_id@ == answered_id(final(self)@[j])
                                && final(self)@[j].content == envelope_json(results@[k].result@)
                                && final(self)@[j].name == Some(results@[k].tool_name@)
                    }
            },
    {
        if self.messages.len() == 0 || self.messages[self.messages.len() - 1].role != Role::Assistant {
            return Err(LogError::NoOpenToolTurn);
        }
        let ghost n = self@.len() as int;
        let ids = ids_of_results(results);
        self.narrow_open_turn(&ids, true);
        let ghost narrowed = self@;
        let ghost keep = ids_of(narrowed.last().tool_calls);
        proof {
            assert(results@.take(0) =~= Seq::<McpToolResult>::empty());
            assert(result_ids(results@.take(0)) =~= Seq::<Seq<char>>::empty());
            assert(narrowed + tool_messages(results@, appended_positions(results@, keep, 0), now) =~= narrowed);
            lemma_keep_calls(old(self)@.last().tool_calls, result_ids(results@), true);
            assert forall|x: Seq<char>| self.pending().contains(x) implies exists|j: int| 0 <= j < results@.len() && #[trigger] results@[j].tool_id@ == x by {
                assert(result_ids(results@).contains(x));
                let j = choose|j: int| 0 <= j < result_ids(results@).len() && result_ids(results@)[j] == x;
                assert(results@[j].tool_id@ == x);
            }
        }
        let mut i: usize = 0;
        while i < results.len()
            invariant
                self.wf(),
                i <= results@.len(),
                self@.len() >= n,
                self@.subrange(0, n) == narrowed,
                narrowed.len() == n,
                keep == ids_of(narrowed.last().tool_calls),
                forall|x: Seq<char>| #[trigger] self.pending().contains(x) <==> (keep.contains(x) && !result_ids(results@.take(i as int)).contains(x)),
                self@ == narrowed + tool_messages(results@, appended_positions(results@, keep, i as int), now),
                forall|x: Seq<char>| self.pending().contains(x) ==> exists|j: int| i <= j < results@.len() && #[trigger] results@[j].tool_id@ == x,
                forall|j: int|
                    n <= j < self@.len() ==> {
                        &&& (#[trigger] self@[j]).role == Role::Tool
                        &&& exists|k: int|
                            0 <= k < results@.len() && results@[k].tool_id@ == answered_id(self@[j])
                                && self@[j].content == envelope_json(results@[k].result@)
                                && self@[j].name == Some(results@[k].tool_name@)
                    },
            decreases results.len() - i,
        {
            let res = &results[i];
            let msg = Message {
                role: Role::Tool,
                content: encode_envelope(&res.result),
                timestamp: now,
                cached: false,
                tool_call_id: Some(res.tool_id.clone()),
                name: Some(res.tool_name.clone()),
                tool_calls: Vec::new(),
            };
            assert(msg@.tool_calls =~= Seq::<CallView>::empty());
            let ghost before = self@;
            let ghost p0 = self.pending();
            proof {
                self.lemma_wf();
                lemma_scan_facts(self@);
                lemma_without(p0, res.tool_id@);
            }
            let ghost mv = with_cached(msg@, false);
            assert(answered_id(mv) == res.tool_id@);
            assert(mv == tool_message_view(*res, now));
            let appended = self.append(msg);
            proof {
                let x = res.tool_id@;
                assert(results@.take(i + 1) =~= results@.take(i as int).push(*res));
                assert(result_ids(results@.take(i + 1)) =~= result_ids(results@.take(i as int)).push(x));
                assert(results@.take(i + 1).drop_last() =~= results@.take(i as int));
                assert forall|y: Seq<char>| result_ids(results@.take(i + 1)).contains(y) <==> (result_ids(results@.take(i as int)).contains(y) || y == x) by {
                    let a = result_ids(results@.take(i as int));
                    let b = result_ids(results@.take(i + 1));
                    if b.contains(y) {
                        let k = choose|k: int| 0 <= k < b.len() && b[k] == y;
                        if k < a.len() {
                            assert(a[k] == y);
                        }
                    }
                    if a.contains(y) {
                        let k = choose|k: int| 0 <= k < a.len() && a[k] == y;
                        assert(b[k] == y);
                    }
                    if y == x {
                        assert(b[i as int] == y);
                    }
                }
                let ps0 = appended_positions(results@, keep, i as int);
                assert(results@[i as int] == *res);
                self.lemma_wf();
                if appended is Ok {
                    assert(self@.drop_last() =~= before);
                    assert(scan(self@) == step(scan(before)->0, mv, false));
                    assert(self.pending() == without(p0, res.tool_id@));
                    assert(p0.contains(x));
                    assert(appended_positions(results@, keep, i + 1) == ps0.push(i as int));
                    assert(tool_messages(results@, ps0.push(i as int), now) =~= tool_messages(results@, ps0, now).push(mv));
                    assert(self@ =~= narrowed + tool_messages(results@, appended_positions(results@, keep, i + 1), now));
                } else {
                    assert(!p0.contains(x));
                    assert(appended_positions(results@, keep, i + 1) == ps0);
                }
                assert forall|y: Seq<char>| #[trigger] self.pending().contains(y) <==> (keep.contains(y) && !result_ids(results@.take(i + 1)).contains(y)) by {
                    if appended is Ok {
                        assert(self.pending().contains(y) == (p0.contains(y) && y != x));
                    }
                }
                assert forall|x: Seq<char>| self.pending().contains(x) implies exists|j: int| i + 1 <= j < results@.len() && #[trigger] results@[j].tool_id@ == x by {
                    assert(p0.contains(x));
                    let j = choose|j: int| i <= j < results@.len() && #[trigger] results@[j].tool_id@ == x;
                    if j == i {
                        assert(appended is Err);
                        assert(false);
                    }
                }
                if appended is Ok {
                    assert(self@ == before.push(with_cached(msg@, false)));
                    assert(self@.subrange(0, n) =~= before.subrange(0, n));
                    assert forall|j: int| n <= j < self@.len() implies {
                        &&& (#[trigger] self@[j]).role == Role::Tool
                        &&& exists|k: int|
                            0 <= k < results@.len() && results@[k].tool_id@ == answered_id(self@[j])
                                && self@[j].content == envelope_json(results@[k].result@)
                                && self@[j].name == Some(results@[k].tool_name@)
                    } by {
                        if j < before.len() {
                            assert(self@[j] == before[j]);
                        } else {
                            assert(results@[i as int].tool_id@ == answered_id(self@[j]));
                        }
                    }
                }
            }
            i = i + 1;
        }
        proof {
            if self.pending().len() > 0 {
                assert(self.pending().contains(self.pending()[0]));
            }
            assert(narrowed.subrange(0, n - 1) =~= old(self)@.subrange(0, n - 1));
            assert(self@.subrange(0, n - 1) =~= self@.subrange(0, n).subrange(0, n - 1));
            assert(self@[n - 1] == narrowed[n - 1]);
            assert(results@.take(results@.len() as int) =~= results@);
            assert(self@.subrange(n, self@.len() as int) =~= tool_messages(results@, appended_positions(results@, keep, results@.len() as int), now));
        }
        Ok(())
    }

    /// Removes the tool call `tool_id` from the last message, an assistant
    /// message still waiting for all of its results (the user declined that
    /// call's output). With no call left, the message asks for no tools.
    pub fn decline_tool_call(&mut self, tool_id: &str) -> (r: Result<(), LogError>)
        requires
            old(self).wf(),
        ensures
            final(self).wf(),
            r is Ok <==> (old(self)@.len() > 0 && old(self)@.last().role == Role::Assistant),
            r is Err ==> final(self)@ == old(self)@ && final(self).pending() == old(self).pending(),
            r is Ok ==> {
                &&& final(self)@.drop_last() == old(self)@.drop_last()
                &&& final(self)@.len() == old(self)@.len()
                &&& final(self)@.last() == (MessageView {
                    tool_calls: keep_calls(old(self)@.last().tool_calls, seq![tool_id@], false),
                    ..old(self)@.last()
                })
                &&& final(self).pending() == ids_of(final(self)@.last().tool_calls)
            },
    {
        if self.messages.len() == 0 || self.messages[self.messages.len() - 1].role != Role::Assistant {
            return Err(LogError::NoOpenToolTurn);
        }
        let mut ids: Vec<String> = Vec::new();
        ids.push(to_owned_string(tool_id));
        assert(str_views(ids@) =~= seq![tool_id@]);
        self.narrow_open_turn(&ids, false);
        Ok(())
    }
}


proof fn lemma_scan_ignores_cached(s: Seq<MessageView>, j: int, c: bool)
    requires
        0 <= j < s.len(),
    ensures
        scan(s.update(j, with_cached(s[j], c))) == scan(s),
    decreases s.len(),
{
    let t = s.update(j, with_cached(s[j], c));
    if j == s.len() - 1 {
        assert(t.drop_last() =~= s.drop_last());
    } else {
        lemma_scan_ignores_cached(s.drop_last(), j, c);
        assert(t.drop_last() =~= s.drop_last().update(j, with_cached(s[j], c)));
        assert(t.last() == s.last());
    }
}

proof fn lemma_cached_update(s: Seq<MessageView>, j: int, c: bool)
    requires
        0 <= j < s.len(),
    ensures
        cached_count(s.update(j, with_cached(s[j], c))) + (if s[j].cached {
            1int
        } else {
            0int
        }) == cached_count(s) + (if c {
            1int
        } else {
            0int
        }),
    decreases s.len(),
{
    let t = s.update(j, with_cached(s[j], c));
    if j == s.len() - 1 {
        assert(t.drop_last() =~= s.drop_last());
    } else {
        lemma_cached_update(s.drop_last(), j, c);
        assert(t.drop_last() =~= s.drop_last().update(j, with_cached(s[j], c)));
    }
}

proof fn lemma_cached_only_first(s: Seq<MessageView>)
    requires
        forall|j: int| 1 <= j < s.len() ==> !(#[trigger] s[j]).cached,
    ensures
        cached_count(s) <= 1,
    decreases s.len(),
{
    if s.len() > 1 {
        let q = s.drop_last();
        assert forall|j: int| 1 <= j < q.len() implies !(#[trigger] q[j]).cached by {
            assert(q[j] == s[j]);
        }
        lemma_cached_only_first(q);
        assert(!s[s.len() - 1].cached);
        assert(cached_count(s) == cached_count(q) + if s.last().cached {
            1nat
        } else {
            0nat
        });
    } else if s.len() == 1 {
        assert(s.drop_last().len() == 0);
        assert(cached_count(s.drop_last()) == 0);
    }
}

proof fn lemma_cached_concat(a: Seq<MessageView>, b: Seq<MessageView>)
    ensures
        cached_count(a + b) == cached_count(a) + cached_count(b),
    decreases b.len(),
{
    if b.len() > 0 {
        lemma_cached_concat(a, b.drop_last());
        assert((a + b).drop_last() =~= a + b.drop_last());
    } else {
        assert(a + b =~= a);
    }
}

/// The estimated token count of a text: one token per four characters.
pub open spec fn text_tokens(t: Seq<char>) -> int {
    t.len() as int / 4
}

/// The estimated token count of the messages.
pub open spec fn tokens_of(s: Seq<MessageView>) -> int
    decreases s.len(),
{
    if s.len() == 0 {
        0
    } else {
        tokens_of(s.drop_last()) + text_tokens(s.last().content)
    }
}

/// The estimated token count of a text: one token per four characters.
pub fn estimate_tokens(text: &str) -> (r: u64)
    ensures
        r == text_tokens(text@),
{
    (text.unicode_len() / 4) as u64
}

proof fn lemma_tokens_concat(a: Seq<MessageView>, b: Seq<MessageView>)
    ensures
        tokens_of(a + b) == tokens_of(a) + tokens_of(b),
    decreases b.len(),
{
    if b.len() > 0 {
        lemma_tokens_concat(a, b.drop_last());
        assert((a + b).drop_last() =~= a + b.drop_last());
    } else {
        assert(a + b =~= a);
    }
}

proof fn lemma_tokens_nonneg(s: Seq<MessageView>)
    ensures
        tokens_of(s) >= 0,
    decreases s.len(),
{
    if s.len() > 0 {
        lemma_tokens_nonneg(s.drop_last());
    }
}

proof fn lemma_scan_prefix(s: Seq<MessageView>, e: int)
    requires
        scan(s) is Some,
        0 <= e <= s.len(),
    ensures
        scan(s.subrange(0, e)) is Some,
    decreases s.len(),
{
    if e < s.len() {
        assert(s.drop_last().subrange(0, e) =~= s.subrange(0, e));
        lemma_scan_prefix(s.drop_last(), e);
    } else {
        assert(s.subrange(0, e) =~= s);
    }
}

proof fn lemma_scan_same_base(a: Seq<MessageView>, c: Seq<MessageView>, b: Seq<MessageView>)
    requires
        a.len() > 0,
        c.len() > 0,
        scan(a) == scan(c),
    ensures
        scan(a + b) == scan(c + b),
    decreases b.len(),
{
    if b.len() == 0 {
        assert(a + b =~= a);
        assert(c + b =~= c);
    } else {
        lemma_scan_same_base(a, c, b.drop_last());
        assert((a + b).drop_last() =~= a + b.drop_last());
        assert((c + b).drop_last() =~= c + b.drop_last());
    }
}

/// `e` is a place where the log can be cut: messages `1..e` may be dropped
/// as whole tool turns, keeping the first message and the last user message.
pub open spec fn cut_ok(s: Seq<MessageView>, e: int) -> bool {
    &&& 2 <= e < s.len()
    &&& (s[e].role == Role::User || s[e].role == Role::Assistant)
    &&& s[0].tool_calls.len() == 0
    &&& exists|u: int| e <= u < s.len() && (#[trigger] s[u]).role == Role::User
}

/// The log with messages `1..e` dropped.
pub open spec fn cut_at(s: Seq<MessageView>, e: int) -> Seq<MessageView> {
    seq![s[0]] + s.subrange(e, s.len() as int)
}

proof fn lemma_cut_scan(s: Seq<MessageView>, e: int)
    requires
        scan(s) is Some,
        cut_ok(s, e),
    ensures
        scan(cut_at(s, e)) == scan(s),
{
    let a = s.subrange(0, e);
    let b = s.subrange(e, s.len() as int);
    let c = seq![s[0]];
    assert(a + b =~= s);
    assert(c + b =~= cut_at(s, e));
    lemma_scan_prefix(s, e + 1);
    let a1 = s.subrange(0, e + 1);
    assert(a1.drop_last() =~= a);
    assert(a1.last() == s[e]);
    assert(scan(a1) == step(scan(a)->0, s[e], false));
    assert(scan(a)->0 =~= Seq::<Seq<char>>::empty());
    lemma_scan_prefix(s, 1);
    assert(s.subrange(0, 1) =~= c);
    assert(c.drop_last() =~= Seq::<MessageView>::empty());
    assert(c.last() == s[0]);
    assert(scan(c.drop_last()) == Some(Seq::<Seq<char>>::empty()));
    assert(scan(c) == step(Seq::<Seq<char>>::empty(), s[0], true));
    assert(call_ids(s[0]) =~= Seq::<Seq<char>>::empty());
    assert(scan(c) == Some(Seq::<Seq<char>>::empty()));
    lemma_scan_same_base(a, c, b);
}

proof fn lemma_cut_cached(s: Seq<MessageView>, e: int)
    requires
        cut_ok(s, e),
    ensures
        cached_count(cut_at(s, e)) <= cached_count(s),
{
    let a = s.subrange(0, e);
    let b = s.subrange(e, s.len() as int);
    let c = seq![s[0]];
    assert(a + b =~= s);
    assert(c + b =~= cut_at(s, e));
    lemma_cached_concat(a, b);
    lemma_cached_concat(c, b);
    let a_rest = s.subrange(1, e);
    assert(c + a_rest =~= a);
    lemma_cached_concat(c, a_rest);
}

/// Truncation keeps the role rules: cutting whole tool turns out of a log
/// that obeys them leaves exactly the same calls pending, so a log whose
/// tool results were complete stays complete.
pub proof fn lemma_truncation_keeps_integrity(s: Seq<MessageView>, e: int)
    requires
        scan(s) is Some,
        cut_ok(s, e),
    ensures
        scan(cut_at(s, e)) == scan(s),
        scan(s) == Some(Seq::<Seq<char>>::empty()) ==> results_complete(cut_at(s, e)),
        cached_count(cut_at(s, e)) <= cached_count(s),
{
    lemma_cut_scan(s, e);
    lemma_cut_cached(s, e);
    if scan(s) == Some(Seq::<Seq<char>>::empty()) {
        lemma_idle_log_complete(cut_at(s, e));
    }
}


/// The first message that carries a marker and is not the system message.
pub open spec fn oldest_evictable(s: Seq<MessageView>, j: int) -> bool {
    &&& 0 <= j < s.len()
    &&& s[j].cached && s[j].role != Role::System
    &&& forall|k: int| 0 <= k < j ==> !((#[trigger] s[k]).cached && s[k].role != Role::System)
}

impl MessageLog {
    /// The number of messages that carry a cache marker.
    pub fn count_cached(&self) -> (r: usize)
        ensures
            r == cached_count(self@),
    {
        let ghost v = self@;
        let mut n: usize = 0;
        let mut i: usize = 0;
        while i < self.messages.len()
            invariant
                i <= self.messages@.len(),
                v == self@,
                v.len() == self.messages@.len(),
                n == cached_count(v.subrange(0, i as int)),
                n <= i,
            decreases self.messages.len() - i,
        {
            assert(v.subrange(0, i + 1).drop_last() =~= v.subrange(0, i as int));
            assert(v[i as int] == self.messages@[i as int]@);
            if self.messages[i].cached {
                n = n + 1;
            }
            i = i + 1;
        }
        assert(v.subrange(0, v.len() as int) =~= v);
        n
    }

    fn set_cached(&mut self, j: usize, c: bool)
        requires
            scan(old(self)@) == Some(old(self).pending()),
            j < old(self)@.len(),
        ensures
            final(self)@ == old(self)@.update(j as int, with_cached(old(self)@[j as int], c)),
            final(self).pending() == old(self).pending(),
            scan(final(self)@) == Some(final(self).pending()),
            cached_count(final(self)@) + (if old(self)@[j as int].cached {
                1int
            } else {
                0int
            }) == cached_count(old(self)@) + (if c {
                1int
            } else {
                0int
            }),
    {
        proof {
            lemma_scan_ignores_cached(self@, j as int, c);
            lemma_cached_update(self@, j as int, c);
        }
        let mut m = self.messages[j].clone();
        m.cached = c;
        self.messages.set(j, m);
        assert(self@ =~= old(self)@.update(j as int, with_cached(old(self)@[j as int], c)));
    }

    /// Places a cache marker on message `idx`. When the budget is full, the
    /// marker of the oldest marked message other than the system message is
    /// removed first. Messages are otherwise unchanged.
    pub fn mark_cached(&mut self, idx: usize) -> (r: bool)
        requires
            old(self).wf(),
        ensures
            final(self).wf(),
            final(self).pending() == old(self).pending(),
            r == (idx < old(self)@.len()),
            !r ==> final(self)@ == old(self)@,
            r && (old(self)@[idx as int].cached || cached_count(old(self)@) < CACHE_MARKER_BUDGET)
                ==> final(self)@ == old(self)@.update(idx as int, with_cached(old(self)@[idx as int], true)),
            r && !old(self)@[idx as int].cached && cached_count(old(self)@) >= CACHE_MARKER_BUDGET
                ==> exists|j: int|
                oldest_evictable(old(self)@, j) && final(self)@ == old(self)@.update(
                    j,
                    with_cached(old(self)@[j], false),
                ).update(idx as int, with_cached(old(self)@[idx as int], true)),
    {
        if idx >= self.messages.len() {
            return false;
        }
        if self.messages[idx].cached {
            proof {
                assert(with_cached(self@[idx as int], true) == self@[idx as int]);
                assert(self@.update(idx as int, with_cached(self@[idx as int], true)) =~= self@);
            }
            return true;
        }
        if self.count_cached() >= CACHE_MARKER_BUDGET {
            let ghost v = self@;
            proof {
                lemma_scan_facts(v);
            }
            let mut j: usize = 0;
            while j < self.messages.len() && !(self.messages[j].cached && self.messages[j].role
                != Role::System)
                invariant
                    v == self@,
                    j <= v.len(),
                    v.len() == self.messages@.len(),
                    forall|k: int| 0 <= k < j ==> !((#[trigger] v[k]).cached && v[k].role != Role::System),
                decreases self.messages.len() - j,
            {
                assert(v[j as int] == self.messages@[j as int]@);
                j = j + 1;
            }
            if j == self.messages.len() {
                proof {
                    assert forall|k: int| 1 <= k < v.len() implies !(#[trigger] v[k]).cached by {
                        assert(v[k].role != Role::System);
                    }
                    lemma_cached_only_first(v);
                }
                return false;
            }
            assert(v[j as int] == self.messages@[j as int]@);
            assert(oldest_evictable(v, j as int));
            self.set_cached(j, false);
            let ghost w = self@;
            self.set_cached(idx, true);
            assert(w[idx as int] == v[idx as int]);
        } else {
            self.set_cached(idx, true);
        }
        true
    }

    /// Before a provider call: marks the system message, and the newest
    /// message once more than `threshold` uncached input tokens have gone by
    /// since the last checkpoint. Does nothing for a model without prompt
    /// caching. Returns whether the newest message was marked.
    pub fn ensure_cache_markers(
        &mut self,
        supports_caching: bool,
        tokens_since_checkpoint: u64,
        threshold: u64,
    ) -> (r: bool)
        requires
            old(self).wf(),
        ensures
            final(self).wf(),
            final(self).pending() == old(self).pending(),
            final(self)@.len() == old(self)@.len(),
            !supports_caching ==> final(self)@ == old(self)@ && !r,
            r == (supports_caching && tokens_since_checkpoint > threshold && old(self)@.len() > 0),
            r ==> final(self)@.last().cached,
            supports_caching && old(self)@.len() > 0 && old(self)@[0].role == Role::System
                ==> final(self)@[0].cached,
            forall|k: int| 0 <= k < old(self)@.len() ==> {
                let m = #[trigger] final(self)@[k];
                with_cached(m, false) == with_cached(old(self)@[k], false)
            },
    {
        if !supports_caching {
            return false;
        }
        let ghost v0 = self@;
        if self.messages.len() > 0 && self.messages[0].role == Role::System {
            self.mark_cached(0);
        }
        let ghost v1 = self@;
        assert forall|k: int| 0 <= k < v0.len() implies with_cached(#[trigger] v1[k], false) == with_cached(v0[k], false) by {}
        if tokens_since_checkpoint > threshold && self.messages.len() > 0 {
            let last = self.messages.len() - 1;
            self.mark_cached(last);
            assert forall|k: int| 0 <= k < v0.len() implies with_cached(#[trigger] self@[k], false) == with_cached(v0[k], false) by {
                assert(with_cached(v1[k], false) == with_cached(v0[k], false));
            }
            proof {
                if v0.len() > 0 && v0[0].role == Role::System && last != 0 {
                    assert(v1[0].cached);
                    if !v1[last as int].cached && cached_count(v1) >= CACHE_MARKER_BUDGET {
                        let j = choose|j: int| oldest_evictable(v1, j) && self@ == v1.update(
                            j,
                            with_cached(v1[j], false),
                        ).update(last as int, with_cached(v1[last as int], true));
                        assert(j != 0);
                    }
                }
            }
            return true;
        }
        false
    }
}


/// `x` capped at the largest `u64`.
pub open spec fn sat(x: int) -> int {
    if x > u64::MAX {
        u64::MAX as int
    } else {
        x
    }
}

fn sat_add(a: u64, b: u64) -> (r: u64)
    ensures
        r == sat(a + b),
{
    if a > u64::MAX - b {
        u64::MAX
    } else {
        a + b
    }
}

/// The message that replaces a reduced conversation: the summary, marked
/// for caching.
pub open spec fn summary_message(summary: Seq<char>, now: u64) -> MessageView {
    MessageView {
        role: Role::Assistant,
        content: summary,
        timestamp: now,
        cached: true,
        tool_call_id: None,
        name: None,
        tool_calls: seq![],
    }
}

/// The log after a context reduction: the system message, if the log had
/// one, then the summary.
pub open spec fn reduced_log(s: Seq<MessageView>, summary: Seq<char>, now: u64) -> Seq<MessageView> {
    if s.len() > 0 && s[0].role == Role::System {
        seq![s[0], summary_message(summary, now)]
    } else {
        seq![summary_message(summary, now)]
    }
}

impl MessageLog {
    /// The estimated token count of the messages from position `e` on,
    /// capped at the largest `u64`.
    fn tokens_from(&self, e: usize) -> (r: u64)
        requires
            e <= self@.len(),
        ensures
            r == sat(tokens_of(self@.subrange(e as int, self@.len() as int))),
    {
        let ghost v = self@;
        let mut acc: u64 = 0;
        let mut i: usize = e;
        proof {
            assert(v.subrange(e as int, e as int).len() == 0);
        }
        while i < self.messages.len()
            invariant
                v == self@,
                v.len() == self.messages@.len(),
                e <= i <= v.len(),
                acc == sat(tokens_of(v.subrange(e as int, i as int))),
            decreases self.messages.len() - i,
        {
            assert(v.subrange(e as int, i + 1).drop_last() =~= v.subrange(e as int, i as int));
            assert(v.subrange(e as int, i + 1).last() == self.messages@[i as int]@);
            proof {
                lemma_tokens_nonneg(v.subrange(e as int, i as int));
            }
            let t = estimate_tokens(self.messages[i].content.as_str());
            acc = sat_add(acc, t);
            i = i + 1;
        }
        acc
    }

    /// The index of the last user message, if any.
    fn last_user_index(&self) -> (r: Option<usize>)
        ensures
            match r {
                Some(u) => u < self@.len() && self@[u as int].role == Role::User && forall|j: int|
                    u < j < self@.len() ==> (#[trigger] self@[j]).role != Role::User,
                None => forall|j: int| 0 <= j < self@.len() ==> (#[trigger] self@[j]).role != Role::User,
            },
    {
        let ghost v = self@;
        let mut found: Option<usize> = None;
        let mut i: usize = 0;
        while i < self.messages.len()
            invariant
                v == self@,
                v.len() == self.messages@.len(),
                i <= v.len(),
                match found {
                    Some(u) => u < i && v[u as int].role == Role::User && forall|j: int|
                        u < j < i ==> (#[trigger] v[j]).role != Role::User,
                    None => forall|j: int| 0 <= j < i ==> (#[trigger] v[j]).role != Role::User,
                },
            decreases self.messages.len() - i,
        {
            assert(v[i as int] == self.messages@[i as int]@);
            if self.messages[i].role == Role::User {
                found = Some(i);
            }
            i = i + 1;
        }
        found
    }

    /// Before a provider call: when truncation is enabled and the estimated
    /// prompt exceeds `max_request_tokens`, drops the oldest messages after
    /// the first in whole tool turns. The cut is the nearest one that brings
    /// the estimate within the limit, or the farthest one allowed when none
    /// does; the first message and the last user message always stay.
    /// Returns the position where the kept tail began.
    pub fn truncate_if_needed(&mut self, enabled: bool, max_request_tokens: u64) -> (r: Option<
        usize,
    >)
        requires
            old(self).wf(),
        ensures
            final(self).wf(),
            final(self).pending() == old(self).pending(),
            r is Some <==> (enabled && sat(tokens_of(old(self)@)) > max_request_tokens && exists|e: int|
                cut_ok(old(self)@, e)),
            r is None ==> final(self)@ == old(self)@,
            r is Some ==> {
                let e = r->0 as int;
                &&& cut_ok(old(self)@, e)
                &&& final(self)@ == cut_at(old(self)@, e)
                &&& forall|f: int|
                    2 <= f < e && #[trigger] cut_ok(old(self)@, f) ==> sat(tokens_of(cut_at(old(self)@, f)))
                        > max_request_tokens
                &&& sat(tokens_of(final(self)@)) <= max_request_tokens || forall|f: int|
                    e < f && #[trigger] cut_ok(old(self)@, f) ==> false
            },
    {
        let ghost v = self@;
        let n = self.messages.len();
        let last_user = self.last_user_index();
        let total = self.tokens_from(0);
        assert(v.subrange(0, v.len() as int) =~= v);
        proof {
            lemma_tokens_nonneg(v);
        }
        let no_cut: bool = !enabled || total <= max_request_tokens || n < 3
            || self.messages[0].tool_calls.len() != 0 || last_user.is_none();
        if no_cut {
            proof {
                if enabled && sat(tokens_of(v)) > max_request_tokens && exists|e: int| cut_ok(v, e) {
                    let e = choose|e: int| cut_ok(v, e);
                    assert(cut_ok(v, e));
                    let u = choose|u: int| e <= u < v.len() && (#[trigger] v[u]).role == Role::User;
                    assert(v[u].role == Role::User);
                    assert(total > max_request_tokens);
                    assert(n >= 3);
                    assert(v[0].tool_calls.len() == 0);
                    assert(self.messages@[0]@ == v[0]);
                    assert(last_user is Some);
                    assert(false);
                }
            }
            return None;
        }
        let lu = match last_user {
            Some(u) => u,
            None => 0,
        };
        let t0 = estimate_tokens(self.messages[0].content.as_str());
        let mut best: Option<usize> = None;
        let mut chosen: Option<usize> = None;
        let mut e: usize = 2;
        while e < n && chosen.is_none()
            invariant
                v == self@,
                n == v.len(),
                n == self.messages@.len(),
                n >= 3,
                2 <= e <= n,
                v[0].tool_calls.len() == 0,
                lu < n,
                v[lu as int].role == Role::User,
                forall|j: int| lu < j < n ==> (#[trigger] v[j]).role != Role::User,
                t0 == text_tokens(v[0].content),
                forall|f: int| 2 <= f < e && #[trigger] cut_ok(v, f) && chosen is None ==> sat(tokens_of(cut_at(v, f))) > max_request_tokens,
                match chosen {
                    Some(c) => cut_ok(v, c as int) && sat(tokens_of(cut_at(v, c as int))) <= max_request_tokens
                        && c < e && forall|f: int| 2 <= f < c && #[trigger] cut_ok(v, f) ==> sat(tokens_of(cut_at(v, f))) > max_request_tokens,
                    None => true,
                },
                match best {
                    Some(b) => cut_ok(v, b as int) && b < e && forall|f: int| b < f < e ==> !#[trigger] cut_ok(v, f),
                    None => forall|f: int| 2 <= f < e ==> !#[trigger] cut_ok(v, f),
                },
            decreases n - e,
        {
            let role = self.messages[e].role;
            assert(v[e as int].role == role);
            let ok = e <= lu && (role == Role::User || role == Role::Assistant);
            proof {
                if ok {
                    assert(e <= lu < v.len() && v[lu as int].role == Role::User);
                    assert(cut_ok(v, e as int));
                } else {
                    if cut_ok(v, e as int) {
                        let u = choose|u: int| e <= u < v.len() && (#[trigger] v[u]).role == Role::User;
                        assert(v[u].role == Role::User);
                    }
                }
            }
            if ok {
                best = Some(e);
                let rest = self.tokens_from(e);
                let est = sat_add(t0, rest);
                proof {
                    let c = cut_at(v, e as int);
                    assert(c =~= seq![v[0]] + v.subrange(e as int, n as int));
                    lemma_tokens_concat(seq![v[0]], v.subrange(e as int, n as int));
                    let q = seq![v[0]];
                    assert(q.drop_last() =~= Seq::<MessageView>::empty());
                    assert(tokens_of(q.drop_last()) == 0);
                    assert(q.last() == v[0]);
                    assert(tokens_of(q) == text_tokens(v[0].content));
                    lemma_tokens_nonneg(v.subrange(e as int, n as int));
                    assert(est == sat(tokens_of(c)));
                }
                if est <= max_request_tokens {
                    chosen = Some(e);
                }
            }
            e = e + 1;
        }
        let cut = match chosen {
            Some(c) => c,
            None => match best {
                Some(b) => b,
                None => {
                    proof {
                        assert(!exists|f: int| cut_ok(v, f)) by {
                            if exists|f: int| cut_ok(v, f) {
                                let f = choose|f: int| cut_ok(v, f);
                                assert(!cut_ok(v, f));
                            }
                        }
                    }
                    return None;
                },
            },
        };
        proof {
            lemma_scan_facts(v);
            lemma_cut_scan(v, cut as int);
            lemma_cut_cached(v, cut as int);
            if chosen is None {
                assert forall|f: int| cut < f && #[trigger] cut_ok(v, f) implies false by {
                    assert(f < n);
                }
            }
        }
        let mut kept: Vec<Message> = Vec::new();
        kept.push(self.messages[0].clone());
        let mut k: usize = cut;
        while k < n
            invariant
                v == self@,
                n == v.len(),
                n == self.messages@.len(),
                cut <= k <= n,
                2 <= cut < n,
                message_views(kept@) == seq![v[0]] + v.subrange(cut as int, k as int),
            decreases n - k,
        {
            let ghost before = message_views(kept@);
            kept.push(self.messages[k].clone());
            assert(message_views(kept@) =~= before.push(v[k as int]));
            assert(seq![v[0]] + v.subrange(cut as int, k + 1) =~= (seq![v[0]] + v.subrange(
                cut as int,
                k as int,
            )).push(v[k as int]));
            k = k + 1;
        }
        self.messages = kept;
        assert(self@ =~= cut_at(v, cut as int));
        Some(cut)
    }

    /// Replaces the whole conversation by its summary: the system message
    /// (if any) followed by `summary` as an assistant message marked for
    /// caching. Nothing is pending afterwards.
    pub fn apply_context_reduction(&mut self, summary: String, now: u64)
        requires
            old(self).wf(),
        ensures
            final(self).wf(),
            final(self).pending().len() == 0,
            final(self)@ == reduced_log(old(self)@, summary@, now),
    {
        let ghost v = self@;
        proof {
            lemma_scan_facts(v);
        }
        let mut kept: Vec<Message> = Vec::new();
        if self.messages.len() > 0 && self.messages[0].role == Role::System {
            kept.push(self.messages[0].clone());
            proof {
                let q = seq![v[0]];
                assert(q.drop_last() =~= Seq::<MessageView>::empty());
                assert(v.subrange(0, 1) =~= q);
                lemma_scan_prefix(v, 1);
                assert(scan(q) == step(Seq::<Seq<char>>::empty(), v[0], true));
            }
        }
        let msg = Message {
            role: Role::Assistant,
            content: summary,
            timestamp: now,
            cached: true,
            tool_call_id: None,
            name: None,
            tool_calls: Vec::new(),
        };
        assert(msg@.tool_calls =~= Seq::<CallView>::empty());
        assert(msg@ == summary_message(summary@, now));
        let ghost before = message_views(kept@);
        kept.push(msg);
        let ghost w = message_views(kept@);
        assert(w =~= before.push(summary_message(summary@, now)));
        assert(w =~= reduced_log(v, summary@, now));
        self.messages = kept;
        self.pending = Vec::new();
        proof {
            assert(w.drop_last() =~= before);
            assert(call_ids(summary_message(summary@, now)) =~= Seq::<Seq<char>>::empty());
            assert(str_views(self.pending@) =~= Seq::<Seq<char>>::empty());
            assert(before.len() > 0 ==> before.drop_last() =~= Seq::<MessageView>::empty());
            assert(cached_count(before) <= 1) by {
                if before.len() > 0 {
                    assert(before.drop_last() =~= Seq::<MessageView>::empty());
                    assert(cached_count(before.drop_last()) == 0);
                }
            }
            if before.len() > 0 {
                assert(scan(before) == Some(Seq::<Seq<char>>::empty()));
            }
            assert(scan(w) == step(scan(before)->0, summary_message(summary@, now), before.len() == 0));
            assert(scan(w) == Some(Seq::<Seq<char>>::empty()));
        }
    }

    /// Removes the last message when it is a user message, or an assistant
    /// message whose tool calls have no results yet (or that has none).
    /// Nothing is pending afterwards.
    pub fn drop_last_turn_message(&mut self) -> (r: bool)
        requires
            old(self).wf(),
        ensures
            final(self).wf(),
            r == (old(self)@.len() > 0 && (old(self)@.last().role == Role::User || old(self)@.last().role
                == Role::Assistant)),
            r ==> final(self)@ == old(self)@.drop_last() && final(self).pending().len() == 0,
            !r ==> final(self)@ == old(self)@ && final(self).pending() == old(self).pending(),
    {
        let n = self.messages.len();
        if n == 0 {
            return false;
        }
        let role = self.messages[n - 1].role;
        if role != Role::User && role != Role::Assistant {
            return false;
        }
        let ghost v = self@;
        proof {
            assert(v.drop_last().push(v.last()) =~= v);
            assert(scan(v) == step(scan(v.drop_last())->0, v.last(), v.len() == 1));
        }
        self.messages.pop();
        self.pending = Vec::new();
        proof {
            assert(self@ =~= v.drop_last());
            assert(str_views(self.pending@) =~= scan(v.drop_last())->0);
            assert(cached_count(v) >= cached_count(v.drop_last()));
        }
        true
    }
}

/// Cache-marker budget: a log kept by [`MessageLog`] never has more than
/// [`CACHE_MARKER_BUDGET`] messages marked for caching.
pub proof fn lemma_cache_marker_budget(log: &MessageLog)
    requires
        log.wf(),
    ensures
        cached_count(log@) <= CACHE_MARKER_BUDGET,
{
    log.lemma_wf();
}

/// A log kept by [`MessageLog`] with nothing pending has every tool call
/// answered by exactly one following tool message.
pub proof fn lemma_idle_log_results_complete(log: &MessageLog)
    requires
        log.wf(),
        log.pending().len() == 0,
    ensures
        results_complete(log@),
{
    log.lemma_wf();
    assert(log.pending() =~= Seq::<Seq<char>>::empty());
    lemma_idle_log_complete(log@);
}


/// Uncached input tokens sent since the last cache checkpoint.
pub struct CheckpointTracker {
    since_checkpoint: u64,
}

impl CheckpointTracker {
    pub closed spec fn spec_since(&self) -> u64 {
        self.since_checkpoint
    }

    pub fn new() -> (r: Self)
        ensures
            r.spec_since() == 0,
    {
        CheckpointTracker { since_checkpoint: 0 }
    }

    /// Counts the uncached input tokens of one provider call (capped at the
    /// largest `u64`).
    pub fn record_input(&mut self, tokens: u64)
        ensures
            final(self).spec_since() == sat(old(self).spec_since() + tokens),
    {
        self.since_checkpoint = sat_add(self.since_checkpoint, tokens);
    }

    /// Before a provider call: places the cache markers (see
    /// [`MessageLog::ensure_cache_markers`]) with the tokens counted so far,
    /// and starts counting afresh when the newest message became a
    /// checkpoint.
    pub fn apply(&mut self, log: &mut MessageLog, supports_caching: bool, threshold: u64) -> (r: bool)
        requires
            old(log).wf(),
        ensures
            final(log).wf(),
            final(log).pending() == old(log).pending(),
            r == (supports_caching && old(self).spec_since() > threshold && old(log)@.len() > 0),
            r ==> final(self).spec_since() == 0 && final(log)@.last().cached,
            !r ==> final(self).spec_since() == old(self).spec_since(),
    {
        let placed = log.ensure_cache_markers(supports_caching, self.since_checkpoint, threshold);
        if placed {
            self.since_checkpoint = 0;
        }
        placed
    }
}


impl MessageLog {
    /// Before the layers run: marks the system message for caching when it
    /// is not yet marked. True when a marker was placed.
    pub fn cache_system_message(&mut self) -> (r: bool)
        requires
            old(self).wf(),
        ensures
            final(self).wf(),
            final(self).pending() == old(self).pending(),
            r == (old(self)@.len() > 0 && old(self)@[0].role == Role::System && !old(self)@[0].cached),
            old(self)@.len() > 0 && old(self)@[0].role == Role::System ==> final(self)@[0].cached,
            !r ==> final(self)@ == old(self)@,
            final(self)@.len() == old(self)@.len(),
    {
        if self.messages.len() > 0 && self.messages[0].role == Role::System && !self.messages[0].cached {
            self.mark_cached(0);
            return true;
        }
        false
    }
}

} // verus!
