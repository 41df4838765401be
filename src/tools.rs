//! Tool calls, tool definitions, and the MCP result envelope
//! `{content: [{type: "text", text}], isError, metadata?}`.
use vstd::prelude::*;
use vstd::string::*;
use crate::config::strs;
use crate::patterns::{allowed_by, is_tool_allowed_by_patterns};
use crate::text::{contains, copy_opt_string, occurs_in, str_eq, to_owned_string};

verus! {

/// A tool offered by a server: its name, description and JSON-Schema
/// parameters (kept as JSON text).
#[derive(Debug, PartialEq)]
pub struct McpFunction {
    pub name: String,
    pub description: String,
    pub parameters: String,
}

/// A tool call requested by the model. `tool_id` is the provider's id and is
/// carried through unchanged; `parameters` is JSON text.
#[derive(Debug, PartialEq)]
pub struct McpToolCall {
    pub tool_name: String,
    pub parameters: String,
    pub tool_id: String,
}

/// One item of the envelope's `content` array.
#[derive(Debug, PartialEq)]
pub struct ContentItem {
    pub kind: String,
    pub text: String,
}

/// The MCP content envelope of a tool result. `metadata` is JSON text.
#[derive(Debug, PartialEq)]
pub struct ToolEnvelope {
    pub content: Vec<ContentItem>,
    pub is_error: bool,
    pub metadata: Option<String>,
}

/// The result of one tool call.
#[derive(Debug, PartialEq)]
pub struct McpToolResult {
    pub tool_name: String,
    pub result: ToolEnvelope,
    pub tool_id: String,
}

/// A tool result in the shape the provider expects as a `tool` message.
#[derive(Debug, PartialEq)]
pub struct ToolResponseMessage {
    pub role: String,
    pub tool_call_id: String,
    pub name: String,
    pub content: String,
}

pub struct FunctionView {
    pub name: Seq<char>,
    pub description: Seq<char>,
    pub parameters: Seq<char>,
}

pub struct CallView {
    pub tool_name: Seq<char>,
    pub parameters: Seq<char>,
    pub tool_id: Seq<char>,
}

pub struct EnvelopeView {
    pub content: Seq<(Seq<char>, Seq<char>)>,
    pub is_error: bool,
    pub metadata: Option<Seq<char>>,
}

pub struct ResultView {
    pub tool_name: Seq<char>,
    pub result: EnvelopeView,
    pub tool_id: Seq<char>,
}

impl View for McpFunction {
    type V = FunctionView;

    open spec fn view(&self) -> FunctionView {
        FunctionView {
            name: self.name@,
            description: self.description@,
            parameters: self.parameters@,
        }
    }
}

impl View for McpToolCall {
    type V = CallView;

    open spec fn view(&self) -> CallView {
        CallView { tool_name: self.tool_name@, parameters: self.parameters@, tool_id: self.tool_id@ }
    }
}

impl View for ContentItem {
    type V = (Seq<char>, Seq<char>);

    open spec fn view(&self) -> (Seq<char>, Seq<char>) {
        (self.kind@, self.text@)
    }
}

impl View for ToolEnvelope {
    type V = EnvelopeView;

    open spec fn view(&self) -> EnvelopeView {
        EnvelopeView {
            content: self.content@.map_values(|c: ContentItem| c@),
            is_error: self.is_error,
            metadata: match self.metadata {
                Some(m) => Some(m@),
                None => None,
            },
        }
    }
}

impl View for McpToolResult {
    type V = ResultView;

    open spec fn view(&self) -> ResultView {
        ResultView { tool_name: self.tool_name@, result: self.result@, tool_id: self.tool_id@ }
    }
}

impl Clone for McpFunction {
    fn clone(&self) -> (r: Self)
        ensures
            r@ == self@,
    {
        McpFunction {
            name: self.name.clone(),
            description: self.description.clone(),
            parameters: self.parameters.clone(),
        }
    }
}

impl Clone for McpToolCall {
    fn clone(&self) -> (r: Self)
        ensures
            r@ == self@,
    {
        McpToolCall {
            tool_name: self.tool_name.clone(),
            parameters: self.parameters.clone(),
            tool_id: self.tool_id.clone(),
        }
    }
}

impl Clone for ContentItem {
    fn clone(&self) -> (r: Self)
        ensures
            r@ == self@,
    {
        ContentItem { kind: self.kind.clone(), text: self.text.clone() }
    }
}

impl Clone for ToolEnvelope {
    fn clone(&self) -> (r: Self)
        ensures
            r@ == self@,
    {
        let mut content: Vec<ContentItem> = Vec::new();
        let mut i: usize = 0;
        while i < self.content.len()
            invariant
                i <= self.content@.len(),
                content@.len() == i,
                forall|k: int| 0 <= k < i ==> #[trigger] content@[k]@ == self.content@[k]@,
            decreases self.content.len() - i,
        {
            let item = self.content[i].clone();
            content.push(item);
            i = i + 1;
        }
        assert(content@.map_values(|c: ContentItem| c@) =~= self.content@.map_values(
            |c: ContentItem| c@,
        ));
        ToolEnvelope { content, is_error: self.is_error, metadata: copy_opt_string(&self.metadata) }
    }
}

impl Clone for McpToolResult {
    fn clone(&self) -> (r: Self)
        ensures
            r@ == self@,
    {
        McpToolResult {
            tool_name: self.tool_name.clone(),
            result: self.result.clone(),
            tool_id: self.tool_id.clone(),
        }
    }
}

/// An envelope holding one text item.
pub open spec fn text_envelope(text: Seq<char>, is_error: bool) -> EnvelopeView {
    EnvelopeView { content: seq![("text"@, text)], is_error, metadata: None }
}

fn text_item(text: String) -> (r: ContentItem)
    ensures
        r@ == ("text"@, text@),
{
    ContentItem { kind: to_owned_string("text"), text }
}

impl McpToolResult {
    /// A successful result carrying `content` as its one text item.
    pub fn success(tool_name: String, tool_id: String, content: String) -> (r: Self)
        ensures
            r@ == (ResultView {
                tool_name: tool_name@,
                result: text_envelope(content@, false),
                tool_id: tool_id@,
            }),
    {
        let mut items: Vec<ContentItem> = Vec::new();
        items.push(text_item(content));
        let r = McpToolResult {
            tool_name,
            result: ToolEnvelope { content: items, is_error: false, metadata: None },
            tool_id,
        };
        assert(r@.result.content =~= text_envelope(content@, false).content);
        r
    }

    /// A successful result that also carries metadata (JSON text).
    pub fn success_with_metadata(
        tool_name: String,
        tool_id: String,
        content: String,
        metadata: String,
    ) -> (r: Self)
        ensures
            r@ == (ResultView {
                tool_name: tool_name@,
                result: EnvelopeView {
                    content: seq![("text"@, content@)],
                    is_error: false,
                    metadata: Some(metadata@),
                },
                tool_id: tool_id@,
            }),
    {
        let mut items: Vec<ContentItem> = Vec::new();
        items.push(text_item(content));
        let r = McpToolResult {
            tool_name,
            result: ToolEnvelope { content: items, is_error: false, metadata: Some(metadata) },
            tool_id,
        };
        assert(r@.result.content =~= seq![("text"@, content@)]);
        r
    }

    /// An error result carrying `error_message` as its one text item.
    pub fn error(tool_name: String, tool_id: String, error_message: String) -> (r: Self)
        ensures
            r@ == (ResultView {
                tool_name: tool_name@,
                result: text_envelope(error_message@, true),
                tool_id: tool_id@,
            }),
    {
        let mut items: Vec<ContentItem> = Vec::new();
        items.push(text_item(error_message));
        let r = McpToolResult {
            tool_name,
            result: ToolEnvelope { content: items, is_error: true, metadata: None },
            tool_id,
        };
        assert(r@.result.content =~= text_envelope(error_message@, true).content);
        r
    }
}

/// The texts of the `text` items, in order.
pub open spec fn text_parts(c: Seq<(Seq<char>, Seq<char>)>) -> Seq<Seq<char>>
    decreases c.len(),
{
    if c.len() == 0 {
        seq![]
    } else if c.last().0 == "text"@ {
        text_parts(c.drop_last()).push(c.last().1)
    } else {
        text_parts(c.drop_last())
    }
}

/// The parts joined with a newline between consecutive ones.
pub open spec fn join_lines(parts: Seq<Seq<char>>) -> Seq<char>
    decreases parts.len(),
{
    if parts.len() == 0 {
        seq![]
    } else if parts.len() == 1 {
        parts[0]
    } else {
        join_lines(parts.drop_last()) + "\n"@ + parts.last()
    }
}

/// The readable text of an envelope: its text items joined by newlines,
/// followed by the metadata when there is some.
pub open spec fn envelope_text(e: EnvelopeView) -> Seq<char> {
    let main = join_lines(text_parts(e.content));
    match e.metadata {
        Some(m) => main + "\n\n[Metadata: "@ + m + "]"@,
        None => main,
    }
}

/// The readable text of a tool result.
pub fn extract_mcp_content(result: &ToolEnvelope) -> (r: String)
    ensures
        r@ == envelope_text(result@),
{
    let ghost c = result@.content;
    let mut main = String::new();
    let mut count: usize = 0;
    let mut i: usize = 0;
    while i < result.content.len()
        invariant
            i <= result.content@.len(),
            c == result@.content,
            count as int == text_parts(c.subrange(0, i as int)).len(),
            count <= i,
            main@ == join_lines(text_parts(c.subrange(0, i as int))),
        decreases result.content.len() - i,
    {
        let item = &result.content[i];
        assert(c.subrange(0, i + 1).drop_last() =~= c.subrange(0, i as int));
        assert(c.subrange(0, i + 1).last() == item@);
        proof {
            reveal_strlit("text");
        }
        let ghost parts = text_parts(c.subrange(0, i as int));
        let ghost old_main = main@;
        if str_eq(item.kind.as_str(), "text") {
            assert(text_parts(c.subrange(0, i + 1)) == parts.push(item.text@));
            assert(parts.push(item.text@).drop_last() =~= parts);
            if count > 0 {
                main.append("\n");
            }
            main.append(item.text.as_str());
            if count == 0 {
                assert(main@ =~= item.text@);
            } else {
                assert(main@ =~= old_main + "\n"@ + item.text@);
            }
            count = count + 1;
        }
        i = i + 1;
    }
    assert(c.subrange(0, result.content@.len() as int) =~= c);
    match &result.metadata {
        Some(m) => {
            main.append("\n\n[Metadata: ");
            main.append(m.as_str());
            main.append("]");
        },
        None => {},
    }
    main
}


/// Reading the text back out of a success envelope gives the text that went in.
pub proof fn lemma_envelope_round_trip(text: Seq<char>)
    ensures
        envelope_text(text_envelope(text, false)) == text,
{
    reveal_strlit("text");
    let c = text_envelope(text, false).content;
    assert(c.drop_last() =~= Seq::<(Seq<char>, Seq<char>)>::empty());
    assert(c.last() == ("text"@, text));
    assert(text_parts(c.drop_last()) == Seq::<Seq<char>>::empty());
    assert(text_parts(c) =~= seq![text]);
}

/// A lowercase hexadecimal digit.
pub open spec fn hex_digit(d: int) -> char {
    if d < 10 {
        (('0' as int) + d) as char
    } else {
        (('a' as int) + d - 10) as char
    }
}

/// How one character appears inside a JSON string: quote, backslash and
/// the control characters are escaped (`\b \t \n \f \r` by name, the other
/// controls as `\u00XX`); every other character stands for itself.
pub open spec fn json_escape(c: char) -> Seq<char> {
    if c == '"' {
        seq!['\\', '"']
    } else if c == '\\' {
        seq!['\\', '\\']
    } else if c == '\x08' {
        seq!['\\', 'b']
    } else if c == '\t' {
        seq!['\\', 't']
    } else if c == '\n' {
        seq!['\\', 'n']
    } else if c == '\x0c' {
        seq!['\\', 'f']
    } else if c == '\r' {
        seq!['\\', 'r']
    } else if (c as int) < 0x20 {
        seq!['\\', 'u', '0', '0', hex_digit((c as int) / 16), hex_digit((c as int) % 16)]
    } else {
        seq![c]
    }
}

/// The escaped characters of `s`, in order.
pub open spec fn json_escaped(s: Seq<char>) -> Seq<char>
    decreases s.len(),
{
    if s.len() == 0 {
        seq![]
    } else {
        json_escaped(s.drop_last()) + json_escape(s.last())
    }
}

/// The JSON string literal for `s`, quotes included.
pub open spec fn json_quoted(s: Seq<char>) -> Seq<char> {
    seq!['"'] + json_escaped(s) + seq!['"']
}

/// Relies on serde_json::to_string on a `str` (format_escaped_str and its
/// ESCAPE table): a quote, the characters escaped as in [`json_escape`], a
/// quote. Serializing a `str` does not fail.
#[verifier::external_body]
pub(crate) fn json_quote_str(s: &str) -> (r: String)
    ensures
        r@ == json_quoted(s@),
{
    serde_json::to_string(s).unwrap_or_default()
}

/// One content item as JSON (serde_json writes object keys in sorted order).
pub open spec fn item_json(c: (Seq<char>, Seq<char>)) -> Seq<char> {
    "{\"text\":"@ + json_quoted(c.1) + ",\"type\":"@ + json_quoted(c.0) + "}"@
}

/// The content items as JSON, comma-separated.
pub open spec fn items_json(c: Seq<(Seq<char>, Seq<char>)>) -> Seq<char>
    decreases c.len(),
{
    if c.len() == 0 {
        seq![]
    } else if c.len() == 1 {
        item_json(c[0])
    } else {
        items_json(c.drop_last()) + ","@ + item_json(c.last())
    }
}

/// The envelope as compact JSON with sorted keys.
pub open spec fn envelope_json(e: EnvelopeView) -> Seq<char> {
    "{\"content\":["@ + items_json(e.content) + "],\"isError\":"@ + (if e.is_error {
        "true"@
    } else {
        "false"@
    }) + match e.metadata {
        Some(m) => ",\"metadata\":"@ + m,
        None => seq![],
    } + "}"@
}

/// The envelope as compact JSON text.
pub fn encode_envelope(e: &ToolEnvelope) -> (r: String)
    ensures
        r@ == envelope_json(e@),
{
    let ghost c = e@.content;
    let mut out = String::new();
    out.append("{\"content\":[");
    let mut items = String::new();
    let mut i: usize = 0;
    while i < e.content.len()
        invariant
            i <= e.content@.len(),
            c == e@.content,
            items@ == items_json(c.subrange(0, i as int)),
        decreases e.content.len() - i,
    {
        let item = &e.content[i];
        assert(c.subrange(0, i + 1).drop_last() =~= c.subrange(0, i as int));
        assert(c.subrange(0, i + 1).last() == item@);
        let ghost prev = items@;
        if i > 0 {
            items.append(",");
        }
        items.append("{\"text\":");
        let t = json_quote_str(item.text.as_str());
        items.append(t.as_str());
        items.append(",\"type\":");
        let k = json_quote_str(item.kind.as_str());
        items.append(k.as_str());
        items.append("}");
        if i == 0 {
            assert(c.subrange(0, 1)[0] == item@);
            assert(items@ =~= item_json(item@));
        } else {
            assert(items@ =~= prev + ","@ + item_json(item@));
        }
        i = i + 1;
    }
    assert(c.subrange(0, e.content@.len() as int) =~= c);
    out.append(items.as_str());
    out.append("],\"isError\":");
    if e.is_error {
        out.append("true");
    } else {
        out.append("false");
    }
    match &e.metadata {
        Some(m) => {
            out.append(",\"metadata\":");
            out.append(m.as_str());
        },
        None => {},
    }
    out.append("}");
    proof {
        let tail = match e@.metadata {
            Some(m) => ",\"metadata\":"@ + m,
            None => Seq::<char>::empty(),
        };
        assert(out@ =~= "{\"content\":["@ + items_json(c) + "],\"isError\":"@ + (if e.is_error {
            "true"@
        } else {
            "false"@
        }) + tail + "}"@);
    }
    out
}

/// The `tool` messages for a list of results, in order.
pub fn tool_results_to_messages(results: &Vec<McpToolResult>) -> (r: Vec<ToolResponseMessage>)
    ensures
        r@.len() == results@.len(),
        forall|k: int|
            0 <= k < results@.len() ==> {
                &&& (#[trigger] r@[k]).role@ == "tool"@
                &&& r@[k].tool_call_id@ == results@[k].tool_id@
                &&& r@[k].name@ == results@[k].tool_name@
                &&& r@[k].content@ == envelope_json(results@[k].result@)
            },
{
    let mut out: Vec<ToolResponseMessage> = Vec::new();
    let mut i: usize = 0;
    while i < results.len()
        invariant
            i <= results@.len(),
            out@.len() == i,
            forall|k: int|
                0 <= k < i ==> {
                    &&& (#[trigger] out@[k]).role@ == "tool"@
                    &&& out@[k].tool_call_id@ == results@[k].tool_id@
                    &&& out@[k].name@ == results@[k].tool_name@
                    &&& out@[k].content@ == envelope_json(results@[k].result@)
                },
        decreases results.len() - i,
    {
        let r = &results[i];
        out.push(
            ToolResponseMessage {
                role: to_owned_string("tool"),
                tool_call_id: r.tool_id.clone(),
                name: r.tool_name.clone(),
                content: encode_envelope(&r.result),
            },
        );
        i = i + 1;
    }
    out
}


/// The display category of a tool, guessed from its name.
pub open spec fn category_of(n: Seq<char>) -> Seq<char> {
    if n == "core"@ {
        "system"@
    } else if n == "text_editor"@ {
        "developer"@
    } else if n == "list_files"@ {
        "filesystem"@
    } else if n == "read_html"@ {
        "web"@
    } else if occurs_in("file"@, n) || occurs_in("editor"@, n) {
        "developer"@
    } else if occurs_in("search"@, n) || occurs_in("find"@, n) {
        "search"@
    } else if occurs_in("image"@, n) || occurs_in("photo"@, n) {
        "media"@
    } else if occurs_in("web"@, n) || occurs_in("http"@, n) {
        "web"@
    } else if occurs_in("db"@, n) || occurs_in("database"@, n) {
        "database"@
    } else if occurs_in("browser"@, n) {
        "browser"@
    } else if occurs_in("terminal"@, n) {
        "terminal"@
    } else if occurs_in("video"@, n) {
        "video"@
    } else if occurs_in("audio"@, n) {
        "audio"@
    } else if occurs_in("location"@, n) || occurs_in("map"@, n) {
        "location"@
    } else if occurs_in("google"@, n) {
        "google"@
    } else if occurs_in("weather"@, n) {
        "weather"@
    } else if occurs_in("calculator"@, n) || occurs_in("math"@, n) {
        "math"@
    } else if occurs_in("news"@, n) {
        "news"@
    } else if occurs_in("email"@, n) {
        "email"@
    } else if occurs_in("calendar"@, n) {
        "calendar"@
    } else if occurs_in("translate"@, n) {
        "translation"@
    } else if occurs_in("github"@, n) {
        "github"@
    } else if occurs_in("git"@, n) {
        "git"@
    } else {
        "external"@
    }
}

/// The display category of a tool, guessed from its name.
pub fn guess_tool_category(tool_name: &str) -> (r: &'static str)
    ensures
        r@ == category_of(tool_name@),
{
    let n = tool_name;
    if str_eq(n, "core") {
        "system"
    } else if str_eq(n, "text_editor") {
        "developer"
    } else if str_eq(n, "list_files") {
        "filesystem"
    } else if str_eq(n, "read_html") {
        "web"
    } else if contains(n, "file") || contains(n, "editor") {
        "developer"
    } else if contains(n, "search") || contains(n, "find") {
        "search"
    } else if contains(n, "image") || contains(n, "photo") {
        "media"
    } else if contains(n, "web") || contains(n, "http") {
        "web"
    } else if contains(n, "db") || contains(n, "database") {
        "database"
    } else if contains(n, "browser") {
        "browser"
    } else if contains(n, "terminal") {
        "terminal"
    } else if contains(n, "video") {
        "video"
    } else if contains(n, "audio") {
        "audio"
    } else if contains(n, "location") || contains(n, "map") {
        "location"
    } else if contains(n, "google") {
        "google"
    } else if contains(n, "weather") {
        "weather"
    } else if contains(n, "calculator") || contains(n, "math") {
        "math"
    } else if contains(n, "news") {
        "news"
    } else if contains(n, "email") {
        "email"
    } else if contains(n, "calendar") {
        "calendar"
    } else if contains(n, "translate") {
        "translation"
    } else if contains(n, "github") {
        "github"
    } else if contains(n, "git") {
        "git"
    } else {
        "external"
    }
}

/// The functions whose names pass the patterns, in order.
pub open spec fn keep_allowed(fs: Seq<FunctionView>, pats: Seq<Seq<char>>) -> Seq<FunctionView>
    decreases fs.len(),
{
    if fs.len() == 0 {
        seq![]
    } else if allowed_by(fs.last().name, pats) {
        keep_allowed(fs.drop_last(), pats).push(fs.last())
    } else {
        keep_allowed(fs.drop_last(), pats)
    }
}

pub open spec fn function_views(v: Seq<McpFunction>) -> Seq<FunctionView> {
    v.map_values(|f: McpFunction| f@)
}

/// The functions whose names pass the allowed-tool patterns, in order.
pub fn filter_tools_by_patterns(tools: Vec<McpFunction>, allowed_tools: &[String]) -> (r: Vec<
    McpFunction,
>)
    ensures
        function_views(r@) == keep_allowed(function_views(tools@), strs(allowed_tools@)),
{
    let ghost fs = function_views(tools@);
    let ghost pats = strs(allowed_tools@);
    let mut out: Vec<McpFunction> = Vec::new();
    let mut i: usize = 0;
    while i < tools.len()
        invariant
            i <= tools@.len(),
            fs == function_views(tools@),
            pats == strs(allowed_tools@),
            function_views(out@) == keep_allowed(fs.subrange(0, i as int), pats),
        decreases tools.len() - i,
    {
        let f = &tools[i];
        assert(fs.subrange(0, i + 1).drop_last() =~= fs.subrange(0, i as int));
        assert(fs.subrange(0, i + 1).last() == f@);
        let ghost prev = function_views(out@);
        if is_tool_allowed_by_patterns(f.name.as_str(), allowed_tools) {
            out.push(f.clone());
            assert(function_views(out@) =~= prev.push(f@));
        }
        i = i + 1;
    }
    assert(fs.subrange(0, tools@.len() as int) =~= fs);
    out
}

/// The identifier given to a tool call that arrived without one.
pub open spec fn is_synthesized_id(id: Seq<char>) -> bool {
    id.len() == 37 && id.subrange(0, 5) == "tool_"@
}

/// Relies on uuid's `Uuid::new_v4().simple()`: a random UUID written as 32
/// hexadecimal digits without hyphens.
#[verifier::external_body]
fn random_uuid_simple() -> (r: String)
    ensures
        r@.len() == 32,
{
    uuid::Uuid::new_v4().simple().to_string()
}

/// Gives every call without an id a fresh `tool_<uuid>` id; ids that are
/// present are kept byte for byte.
pub fn ensure_tool_call_ids(calls: &mut Vec<McpToolCall>)
    ensures
        final(calls)@.len() == old(calls)@.len(),
        forall|k: int|
            0 <= k < old(calls)@.len() ==> {
                &&& (#[trigger] final(calls)@[k])@.tool_name == old(calls)@[k]@.tool_name
                &&& final(calls)@[k]@.parameters == old(calls)@[k]@.parameters
                &&& old(calls)@[k]@.tool_id.len() > 0 ==> final(calls)@[k]@.tool_id
                    == old(calls)@[k]@.tool_id
                &&& old(calls)@[k]@.tool_id.len() == 0 ==> is_synthesized_id(
                    final(calls)@[k]@.tool_id,
                )
            },
{
    let ghost orig = calls@;
    let mut i: usize = 0;
    while i < calls.len()
        invariant
            i <= calls@.len(),
            calls@.len() == orig.len(),
            forall|k: int| i <= k < orig.len() ==> #[trigger] calls@[k] == orig[k],
            forall|k: int|
                0 <= k < i ==> {
                    &&& (#[trigger] calls@[k])@.tool_name == orig[k]@.tool_name
                    &&& calls@[k]@.parameters == orig[k]@.parameters
                    &&& orig[k]@.tool_id.len() > 0 ==> calls@[k]@.tool_id == orig[k]@.tool_id
                    &&& orig[k]@.tool_id.len() == 0 ==> is_synthesized_id(calls@[k]@.tool_id)
                },
        decreases calls.len() - i,
    {
        if calls[i].tool_id.as_str().is_empty() {
            let mut id = to_owned_string("tool_");
            let u = random_uuid_simple();
            id.append(u.as_str());
            proof {
                reveal_strlit("tool_");
                assert(id@.subrange(0, 5) =~= "tool_"@);
            }
            let fixed = McpToolCall {
                tool_name: calls[i].tool_name.clone(),
                parameters: calls[i].parameters.clone(),
                tool_id: id,
            };
            calls.set(i, fixed);
        }
        i = i + 1;
    }
}

/// Tool calls are passed as structured values; text is never parsed for them.
pub fn parse_tool_calls(_content: &str) -> (r: Vec<McpToolCall>)
    ensures
        r@.len() == 0,
{
    Vec::new()
}

} // verus!
