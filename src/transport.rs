//! The transport side of MCP: JSON-RPC 2.0 request framing, the stdio
//! adapter's table of pending request ids, the splitting of output into
//! lines, and the HTTP liveness rule.
use vstd::prelude::*;
use vstd::string::*;
use crate::config::{McpServerConfig, ServerView, ConnView};
use crate::text::{decimal, decimal_of, to_owned_string};
use crate::tools::{json_quote_str, json_quoted, text_envelope, McpToolResult, ResultView};

verus! {

/// Why a transport call failed. A tool reports these as an error result.
#[derive(Debug, PartialEq, Eq)]
pub enum TransportError {
    /// The server answered with a non-success HTTP status.
    HttpStatus(u16),
    /// The server could not be reached, or its process is gone.
    ConnectionFailed,
    /// The answer was not the JSON that was expected.
    MalformedJson,
    /// The answer held a JSON-RPC error object (as JSON text).
    RpcError(String),
    /// No answer within the call's timeout.
    Timeout,
}

/// `{"id":1,"jsonrpc":"2.0","method":"tools/list","params":{}}`
pub open spec fn tools_list_request_text() -> Seq<char> {
    "{\"id\":1,\"jsonrpc\":\"2.0\",\"method\":\"tools/list\",\"params\":{}}"@
}

/// The JSON-RPC request that lists a server's tools.
pub fn create_tools_list_request() -> (r: String)
    ensures
        r@ == tools_list_request_text(),
{
    to_owned_string("{\"id\":1,\"jsonrpc\":\"2.0\",\"method\":\"tools/list\",\"params\":{}}")
}

/// The JSON-RPC `initialize` request the health check sends.
pub fn create_initialize_request() -> (r: String)
    ensures
        r@ == "{\"id\":1,\"jsonrpc\":\"2.0\",\"method\":\"initialize\",\"params\":{\"capabilities\":{},\"clientInfo\":{\"name\":\"octomind-health-check\",\"version\":\"1.0.0\"},\"protocolVersion\":\"2024-11-05\"}}"@,
{
    to_owned_string(
        "{\"id\":1,\"jsonrpc\":\"2.0\",\"method\":\"initialize\",\"params\":{\"capabilities\":{},\"clientInfo\":{\"name\":\"octomind-health-check\",\"version\":\"1.0.0\"},\"protocolVersion\":\"2024-11-05\"}}",
    )
}

/// The `tools/call` request text with request id `id`; `arguments` is JSON
/// text and goes in as it is.
pub open spec fn tools_call_text(id: u64, tool_name: Seq<char>, arguments: Seq<char>) -> Seq<char> {
    "{\"id\":"@ + decimal_of(id as nat) + ",\"jsonrpc\":\"2.0\",\"method\":\"tools/call\",\"params\":{\"arguments\":"@
        + arguments + ",\"name\":"@ + json_quoted(tool_name) + "}}"@
}

/// The JSON-RPC request that calls tool `tool_name` with `arguments`.
pub fn create_tools_call_request(id: u64, tool_name: &str, arguments: &str) -> (r: String)
    ensures
        r@ == tools_call_text(id, tool_name@, arguments@),
{
    let mut s = to_owned_string("{\"id\":");
    let n = decimal(id);
    s.append(n.as_str());
    s.append(",\"jsonrpc\":\"2.0\",\"method\":\"tools/call\",\"params\":{\"arguments\":");
    s.append(arguments);
    s.append(",\"name\":");
    let q = json_quote_str(tool_name);
    s.append(q.as_str());
    s.append("}}");
    s
}

/// A request as written to a stdio server: the request and a newline.
pub fn frame_stdio_line(request: &str) -> (r: String)
    ensures
        r@ == request@ + "\n"@,
{
    let mut s = to_owned_string(request);
    s.append("\n");
    s
}

/// Liveness over HTTP: any 2xx or 4xx answer means the server is up; 5xx
/// (and no answer at all) means it is down.
pub fn http_status_alive(status: u16) -> (r: bool)
    ensures
        r == ((200 <= status && status < 300) || (400 <= status && status < 500)),
{
    (200 <= status && status < 300) || (400 <= status && status < 500)
}

/// `s` without trailing `/` characters.
pub open spec fn trim_slashes(s: Seq<char>) -> Seq<char>
    decreases s.len(),
{
    if s.len() > 0 && s.last() == '/' {
        trim_slashes(s.drop_last())
    } else {
        s
    }
}

/// The base URL of a remote HTTP server: its URL without trailing slashes.
/// Servers that run as processes (or in-process) have none.
pub fn remote_base_url(server: &McpServerConfig) -> (r: Option<String>)
    ensures
        match server@ {
            ServerView::Http { connection: ConnView::Remote { url, .. }, .. } => r is Some && r->0@
                == trim_slashes(url),
            _ => r is None,
        },
{
    match server.url() {
        Some(url) => {
            let n = url.unicode_len();
            let mut end: usize = n;
            assert(url@.subrange(0, n as int) =~= url@);
            while end > 0 && url.get_char(end - 1) == '/'
                invariant
                    end <= n,
                    n == url@.len(),
                    trim_slashes(url@) == trim_slashes(url@.subrange(0, end as int)),
                decreases end,
            {
                assert(url@.subrange(0, end as int).drop_last() =~= url@.subrange(0, end - 1));
                end = end - 1;
            }
            proof {
                if end > 0 {
                    assert(url@.subrange(0, end as int).last() == url@[end - 1]);
                }
                assert(trim_slashes(url@.subrange(0, end as int)) == url@.subrange(0, end as int));
            }
            Some(to_owned_string(url.substring_char(0, end)))
        },
        None => None,
    }
}

/// The request ids of a stdio connection: each new request gets the next
/// id; an answer is taken only for an id still waiting; a timed-out id is
/// abandoned and its late answer dropped.
pub struct PendingRequests {
    next_id: u64,
    waiting: Vec<u64>,
}

impl PendingRequests {
    pub closed spec fn spec_next(&self) -> u64 {
        self.next_id
    }

    pub closed spec fn spec_waiting(&self) -> Seq<u64> {
        self.waiting@
    }

    pub closed spec fn wf(&self) -> bool {
        forall|k: int| 0 <= k < self.waiting@.len() ==> #[trigger] self.waiting@[k] < self.next_id
    }

    /// No request yet; ids start at 1.
    pub fn new() -> (r: Self)
        ensures
            r.wf(),
            r.spec_next() == 1,
            r.spec_waiting().len() == 0,
    {
        PendingRequests { next_id: 1, waiting: Vec::new() }
    }

    /// Registers a new request and returns its id, larger than every id
    /// given before. None once the ids are spent.
    pub fn register(&mut self) -> (r: Option<u64>)
        requires
            old(self).wf(),
        ensures
            final(self).wf(),
            match r {
                Some(id) => id == old(self).spec_next() && final(self).spec_next() == id + 1
                    && final(self).spec_waiting() == old(self).spec_waiting().push(id),
                None => old(self).spec_next() == u64::MAX && final(self).spec_waiting()
                    == old(self).spec_waiting() && final(self).spec_next() == old(self).spec_next(),
            },
    {
        if self.next_id == u64::MAX {
            return None;
        }
        let id = self.next_id;
        self.waiting.push(id);
        self.next_id = id + 1;
        Some(id)
    }

    fn position(&self, id: u64) -> (r: Option<usize>)
        ensures
            match r {
                Some(k) => k < self.waiting@.len() && self.waiting@[k as int] == id,
                None => !self.waiting@.contains(id),
            },
    {
        let mut i: usize = 0;
        while i < self.waiting.len()
            invariant
                i <= self.waiting@.len(),
                forall|k: int| 0 <= k < i ==> self.waiting@[k] != id,
            decreases self.waiting.len() - i,
        {
            if self.waiting[i] == id {
                return Some(i);
            }
            i = i + 1;
        }
        None
    }

    /// Takes the answer for `id`: true when it was waiting (it stops
    /// waiting); false for an unknown or abandoned id, whose answer is dropped.
    pub fn complete(&mut self, id: u64) -> (r: bool)
        requires
            old(self).wf(),
        ensures
            final(self).wf(),
            r == old(self).spec_waiting().contains(id),
            final(self).spec_next() == old(self).spec_next(),
            r ==> exists|k: int| 0 <= k < old(self).spec_waiting().len() && old(self).spec_waiting()[k] == id
                && final(self).spec_waiting() == old(self).spec_waiting().remove(k),
            !r ==> final(self).spec_waiting() == old(self).spec_waiting(),
    {
        match self.position(id) {
            Some(k) => {
                self.waiting.remove(k);
                assert(self.waiting@ == old(self).waiting@.remove(k as int));
                assert(old(self).spec_waiting()[k as int] == id);
                assert(forall|j: int| 0 <= j < self.waiting@.len() ==> #[trigger] self.waiting@[j] == old(self).waiting@[if j < k { j } else { j + 1 }]);
                true
            },
            None => false,
        }
    }

    /// Gives up waiting for `id` (its timeout passed).
    pub fn abandon(&mut self, id: u64) -> (r: bool)
        requires
            old(self).wf(),
        ensures
            final(self).wf(),
            r == old(self).spec_waiting().contains(id),
            final(self).spec_next() == old(self).spec_next(),
            r ==> exists|k: int| 0 <= k < old(self).spec_waiting().len() && old(self).spec_waiting()[k] == id
                && final(self).spec_waiting() == old(self).spec_waiting().remove(k),
            !r ==> final(self).spec_waiting() == old(self).spec_waiting(),
    {
        self.complete(id)
    }

    /// Whether `id` still waits for an answer.
    pub fn is_waiting(&self, id: u64) -> (r: bool)
        ensures
            r == self.spec_waiting().contains(id),
    {
        self.position(id).is_some()
    }
}

/// The text holds no newline.
pub open spec fn no_newline(s: Seq<char>) -> bool {
    forall|j: int| 0 <= j < s.len() ==> #[trigger] s[j] != '\n'
}

/// The complete lines in `buffer` (without their newline) and the partial
/// line after the last newline, which a reader keeps until more arrives and
/// drops at end of input.
pub fn split_lines(buffer: &str) -> (r: (Vec<String>, String))
    ensures
        no_newline(r.1@),
        forall|k: int| 0 <= k < r.0@.len() ==> no_newline((#[trigger] r.0@[k])@),
        joined_lines(r.0@.map_values(|l: String| l@)) + r.1@ == buffer@,
{
    let n = buffer.unicode_len();
    let mut lines: Vec<String> = Vec::new();
    let mut start: usize = 0;
    let mut i: usize = 0;
    while i < n
        invariant
            n == buffer@.len(),
            start <= i <= n,
            forall|k: int| 0 <= k < lines@.len() ==> no_newline((#[trigger] lines@[k])@),
            forall|j: int| start <= j < i ==> #[trigger] buffer@[j] != '\n',
            joined_lines(lines@.map_values(|l: String| l@)) == buffer@.subrange(0, start as int),
        decreases n - i,
    {
        if buffer.get_char(i) == '\n' {
            let line = buffer.substring_char(start, i);
            let ghost before = lines@.map_values(|l: String| l@);
            lines.push(to_owned_string(line));
            proof {
                assert(lines@.map_values(|l: String| l@) =~= before.push(line@));
                assert(lines@.map_values(|l: String| l@).drop_last() =~= before);
                reveal_strlit("\n");
                assert(buffer@.subrange(0, i + 1) =~= buffer@.subrange(0, start as int) + line@ + "\n"@);
                assert(no_newline(line@));
            }
            start = i + 1;
        }
        i = i + 1;
    }
    let rest = to_owned_string(buffer.substring_char(start, n));
    proof {
        assert(buffer@.subrange(0, start as int) + buffer@.subrange(start as int, n as int) =~= buffer@);
        assert(no_newline(rest@));
    }
    (lines, rest)
}

/// The lines, each followed by a newline.
pub open spec fn joined_lines(lines: Seq<Seq<char>>) -> Seq<char>
    decreases lines.len(),
{
    if lines.len() == 0 {
        seq![]
    } else {
        joined_lines(lines.drop_last()) + lines.last() + "\n"@
    }
}


/// The outcome of an HTTP JSON-RPC answer: a 2xx answer without an error
/// object succeeds; another status fails with that status; an error object
/// (JSON text) fails as a JSON-RPC error.
pub fn classify_http_answer(status: u16, rpc_error: Option<String>) -> (r: Result<(), TransportError>)
    ensures
        !(200 <= status && status < 300) ==> r == Err::<(), TransportError>(TransportError::HttpStatus(status)),
        (200 <= status && status < 300) ==> match rpc_error {
            Some(e) => r == Err::<(), TransportError>(TransportError::RpcError(e)),
            None => r is Ok,
        },
{
    if !(200 <= status && status < 300) {
        return Err(TransportError::HttpStatus(status));
    }
    match rpc_error {
        Some(e) => Err(TransportError::RpcError(e)),
        None => Ok(()),
    }
}

/// The text the model sees for a transport failure.
pub open spec fn transport_error_text(e: TransportError) -> Seq<char> {
    match e {
        TransportError::HttpStatus(s) => "MCP server answered with HTTP status "@ + decimal_of(s as nat),
        TransportError::ConnectionFailed => "MCP server could not be reached"@,
        TransportError::MalformedJson => "MCP server answered with malformed JSON"@,
        TransportError::RpcError(m) => "JSON-RPC error from MCP server: "@ + m@,
        TransportError::Timeout => "MCP server did not answer in time"@,
    }
}

/// A transport failure as an error result for the model (it is never
/// hidden from it).
pub fn transport_error_result(tool_name: String, tool_id: String, error: TransportError) -> (r: McpToolResult)
    ensures
        r@ == (ResultView {
            tool_name: tool_name@,
            result: text_envelope(transport_error_text(error), true),
            tool_id: tool_id@,
        }),
{
    let text = match error {
        TransportError::HttpStatus(s) => {
            let mut t = to_owned_string("MCP server answered with HTTP status ");
            let n = decimal(s as u64);
            t.append(n.as_str());
            t
        },
        TransportError::ConnectionFailed => to_owned_string("MCP server could not be reached"),
        TransportError::MalformedJson => to_owned_string("MCP server answered with malformed JSON"),
        TransportError::RpcError(m) => {
            let mut t = to_owned_string("JSON-RPC error from MCP server: ");
            t.append(m.as_str());
            t
        },
        TransportError::Timeout => to_owned_string("MCP server did not answer in time"),
    };
    McpToolResult::error(tool_name, tool_id, text)
}


/// The lines of `t` read left to right: the complete lines so far and the
/// line being read.
pub open spec fn scan_lines(t: Seq<char>) -> (Seq<Seq<char>>, Seq<char>)
    decreases t.len(),
{
    if t.len() == 0 {
        (seq![], seq![])
    } else {
        let (ls, cur) = scan_lines(t.drop_last());
        if t.last() == '\n' {
            (ls.push(cur), seq![])
        } else {
            (ls, cur.push(t.last()))
        }
    }
}

/// The lines of a text: its complete lines, and the last one when the text
/// does not end with a newline.
pub open spec fn text_lines(t: Seq<char>) -> Seq<Seq<char>> {
    let (ls, cur) = scan_lines(t);
    if cur.len() > 0 {
        ls.push(cur)
    } else {
        ls
    }
}

/// How a tool's output is shown: whole when it has at most 20 lines and
/// 2000 characters; its first 15 lines and a count of the rest when it has
/// more lines; else its first 1997 characters and an ellipsis.
pub open spec fn smart_output(t: Seq<char>) -> Seq<char> {
    let ls = text_lines(t);
    if ls.len() <= 20 && t.len() <= 2000 {
        t
    } else if ls.len() > 20 {
        joined_lines(ls.take(15)) + "... ["@ + decimal_of((ls.len() - 15) as nat) + " more lines]"@
    } else {
        t.take(1997) + "..."@
    }
}

/// The lines of `text` (see [`text_lines`]).
pub fn lines_of(text: &str) -> (r: Vec<String>)
    ensures
        r@.map_values(|l: String| l@) == text_lines(text@),
{
    let n = text.unicode_len();
    let mut lines: Vec<String> = Vec::new();
    let mut start: usize = 0;
    let mut i: usize = 0;
    proof {
        assert(text@.subrange(0, 0) =~= Seq::<char>::empty());
        assert(text@.subrange(0int, 0int) =~= Seq::<char>::empty());
    }
    while i < n
        invariant
            n == text@.len(),
            start <= i <= n,
            scan_lines(text@.subrange(0, i as int)) == (lines@.map_values(|l: String| l@), text@.subrange(
                start as int,
                i as int,
            )),
        decreases n - i,
    {
        let ghost before = lines@.map_values(|l: String| l@);
        assert(text@.subrange(0, i + 1).drop_last() =~= text@.subrange(0, i as int));
        assert(text@.subrange(0, i + 1).last() == text@[i as int]);
        if text.get_char(i) == '\n' {
            let line = text.substring_char(start, i);
            lines.push(to_owned_string(line));
            assert(lines@.map_values(|l: String| l@) =~= before.push(line@));
            start = i + 1;
            assert(text@.subrange(start as int, start as int) =~= Seq::<char>::empty());
        } else {
            assert(text@.subrange(start as int, i + 1) =~= text@.subrange(start as int, i as int).push(text@[i as int]));
        }
        i = i + 1;
    }
    assert(text@.subrange(0, n as int) =~= text@);
    if start < n {
        let ghost before = lines@.map_values(|l: String| l@);
        lines.push(to_owned_string(text.substring_char(start, n)));
        assert(lines@.map_values(|l: String| l@) =~= before.push(text@.subrange(start as int, n as int)));
    }
    lines
}

/// How a tool's output is shown (see [`smart_output`]).
pub fn display_tool_output_smart(output: &str) -> (r: String)
    ensures
        r@ == smart_output(output@),
{
    let lines = lines_of(output);
    let ghost ls = lines@.map_values(|l: String| l@);
    let n = output.unicode_len();
    if lines.len() <= 20 && n <= 2000 {
        return to_owned_string(output);
    }
    if lines.len() > 20 {
        let mut out = String::new();
        let mut i: usize = 0;
        while i < 15
            invariant
                i <= 15,
                lines@.len() > 20,
                ls == lines@.map_values(|l: String| l@),
                out@ == joined_lines(ls.take(i as int)),
            decreases 15 - i,
        {
            assert(ls.take(i + 1).drop_last() =~= ls.take(i as int));
            assert(ls.take(i + 1).last() == lines@[i as int]@);
            out.append(lines[i].as_str());
            out.append("\n");
            i = i + 1;
        }
        out.append("... [");
        let more = decimal((lines.len() - 15) as u64);
        out.append(more.as_str());
        out.append(" more lines]");
        return out;
    }
    let mut out = to_owned_string(output.substring_char(0, 1997));
    out.append("...");
    assert(output@.subrange(0, 1997) =~= output@.take(1997));
    out
}

} // verus!
