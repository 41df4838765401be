//! The computing side of a provider exchange: the log as provider messages
//! (with prompt-cache markers), the tool definitions sent along, and the
//! tool calls and usage read back from an answer. The HTTP call and the JSON
//! (de)serialization stay with the caller.
use vstd::prelude::*;
use crate::cost::{calculate_cost, sat_sum, TokenUsage};
use crate::log::{cached_count, message_views, MessageLog, MessageView, Role, CACHE_MARKER_BUDGET};
use crate::text::{copy_opt_string, to_owned_string};
use crate::tools::{ensure_tool_call_ids, is_synthesized_id, json_quote_str, json_quoted, McpFunction, McpToolCall};

verus! {

/// One message as a provider receives it. `cache_control` asks the provider
/// to cache the prompt up to and including it.
#[derive(Debug, PartialEq)]
pub struct ProviderMessage {
    pub role: Role,
    pub content: String,
    pub cache_control: bool,
    pub tool_call_id: Option<String>,
    pub name: Option<String>,
    pub tool_calls: Vec<McpToolCall>,
}

/// The number of provider messages that carry a cache marker.
pub open spec fn control_count(s: Seq<ProviderMessage>) -> nat
    decreases s.len(),
{
    if s.len() == 0 {
        0
    } else {
        control_count(s.drop_last()) + if s.last().cache_control {
            1nat
        } else {
            0nat
        }
    }
}

/// Provider message `p` carries log message `m`.
pub open spec fn carries(p: ProviderMessage, m: MessageView, supports_caching: bool) -> bool {
    &&& p.role == m.role
    &&& p.content@ == m.content
    &&& p.cache_control == (supports_caching && m.cached)
    &&& (match p.tool_call_id {
        Some(s) => Some(s@),
        None => None,
    }) == m.tool_call_id
    &&& (match p.name {
        Some(s) => Some(s@),
        None => None,
    }) == m.name
    &&& p.tool_calls@.map_values(|c: McpToolCall| c@) == m.tool_calls
}

fn copy_calls(v: &Vec<McpToolCall>) -> (r: Vec<McpToolCall>)
    ensures
        r@.map_values(|c: McpToolCall| c@) == v@.map_values(|c: McpToolCall| c@),
{
    let mut out: Vec<McpToolCall> = Vec::new();
    let mut i: usize = 0;
    while i < v.len()
        invariant
            i <= v@.len(),
            out@.len() == i,
            forall|k: int| 0 <= k < i ==> #[trigger] out@[k]@ == v@[k]@,
        decreases v.len() - i,
    {
        out.push(v[i].clone());
        i = i + 1;
    }
    assert(out@.map_values(|c: McpToolCall| c@) =~= v@.map_values(|c: McpToolCall| c@));
    out
}

/// The log as provider messages, one per message, in order and copied
/// verbatim; a message marked for caching carries a cache marker when the
/// model supports prompt caching. So no more than [`CACHE_MARKER_BUDGET`]
/// of them carry one.
pub fn convert_messages(log: &MessageLog, supports_caching: bool) -> (r: Vec<ProviderMessage>)
    requires
        log.wf(),
    ensures
        r@.len() == log@.len(),
        forall|k: int| 0 <= k < r@.len() ==> #[trigger] carries(r@[k], log@[k], supports_caching),
        control_count(r@) == if supports_caching {
            cached_count(log@)
        } else {
            0
        },
        control_count(r@) <= CACHE_MARKER_BUDGET,
{
    let msgs = log.messages();
    let ghost v = log@;
    proof {
        log.lemma_wf();
    }
    let mut out: Vec<ProviderMessage> = Vec::new();
    let mut i: usize = 0;
    while i < msgs.len()
        invariant
            i <= msgs@.len(),
            v == message_views(msgs@),
            v == log@,
            out@.len() == i,
            forall|k: int| 0 <= k < i ==> #[trigger] carries(out@[k], v[k], supports_caching),
            control_count(out@) == if supports_caching {
                cached_count(v.subrange(0, i as int))
            } else {
                0
            },
        decreases msgs.len() - i,
    {
        let m = &msgs[i];
        assert(v[i as int] == m@);
        let p = ProviderMessage {
            role: m.role,
            content: m.content.clone(),
            cache_control: supports_caching && m.cached,
            tool_call_id: copy_opt_string(&m.tool_call_id),
            name: copy_opt_string(&m.name),
            tool_calls: copy_calls(&m.tool_calls),
        };
        let ghost before = out@;
        out.push(p);
        proof {
            assert(out@.drop_last() =~= before);
            assert(v.subrange(0, i + 1).drop_last() =~= v.subrange(0, i as int));
            assert forall|k: int| 0 <= k < i + 1 implies #[trigger] carries(out@[k], v[k], supports_caching) by {
                if k < i {
                    assert(out@[k] == before[k]);
                }
            }
        }
        i = i + 1;
    }
    assert(v.subrange(0, msgs@.len() as int) =~= v);
    out
}

/// A tool definition as a provider receives it.
#[derive(Debug, PartialEq)]
pub struct ToolDefinition {
    pub name: String,
    pub description: String,
    pub parameters: String,
    pub cache_control: bool,
}

/// The tool definitions sent with a request, in order; with prompt caching
/// the last one carries the cache marker (and no other does).
pub fn tool_definitions(fs: &Vec<McpFunction>, supports_caching: bool) -> (r: Vec<ToolDefinition>)
    ensures
        r@.len() == fs@.len(),
        forall|k: int|
            0 <= k < r@.len() ==> {
                &&& (#[trigger] r@[k]).name@ == fs@[k].name@
                &&& r@[k].description@ == fs@[k].description@
                &&& r@[k].parameters@ == fs@[k].parameters@
                &&& r@[k].cache_control == (supports_caching && k == r@.len() - 1)
            },
{
    let mut out: Vec<ToolDefinition> = Vec::new();
    let n = fs.len();
    let mut i: usize = 0;
    while i < n
        invariant
            n == fs@.len(),
            i <= n,
            out@.len() == i,
            forall|k: int|
                0 <= k < i ==> {
                    &&& (#[trigger] out@[k]).name@ == fs@[k].name@
                    &&& out@[k].description@ == fs@[k].description@
                    &&& out@[k].parameters@ == fs@[k].parameters@
                    &&& out@[k].cache_control == (supports_caching && k == n - 1)
                },
        decreases n - i,
    {
        out.push(
            ToolDefinition {
                name: fs[i].name.clone(),
                description: fs[i].description.clone(),
                parameters: fs[i].parameters.clone(),
                cache_control: supports_caching && i == n - 1,
            },
        );
        i = i + 1;
    }
    out
}

/// A tool call as read from a provider answer: its id when the provider
/// gave one, the tool name, the argument text, and whether that text is
/// JSON.
#[derive(Debug, PartialEq)]
pub struct RawToolCall {
    pub id: Option<String>,
    pub name: String,
    pub arguments: String,
    pub arguments_are_json: bool,
}

/// The text holds nothing but spaces, tabs and line breaks.
pub open spec fn is_blank(s: Seq<char>) -> bool {
    forall|k: int| 0 <= k < s.len() ==> #[trigger] s[k] == ' ' || s[k] == '\t' || s[k] == '\n' || s[k] == '\r'
}

fn blank(s: &str) -> (r: bool)
    ensures
        r == is_blank(s@),
{
    let n = s.unicode_len();
    let mut i: usize = 0;
    while i < n
        invariant
            n == s@.len(),
            i <= n,
            forall|k: int| 0 <= k < i ==> #[trigger] s@[k] == ' ' || s@[k] == '\t' || s@[k] == '\n' || s@[k] == '\r',
        decreases n - i,
    {
        let c = s.get_char(i);
        if !(c == ' ' || c == '\t' || c == '\n' || c == '\r') {
            return false;
        }
        i = i + 1;
    }
    true
}

/// The parameters (JSON text) of a call read from an answer: `{}` for blank
/// arguments, the arguments themselves when they are JSON, else the
/// arguments as a JSON string.
pub open spec fn call_parameters(c: RawToolCall) -> Seq<char> {
    if is_blank(c.arguments@) {
        "{}"@
    } else if c.arguments_are_json {
        c.arguments@
    } else {
        json_quoted(c.arguments@)
    }
}

/// The tool calls of an answer, in order. Ids the provider gave are kept
/// byte for byte; a call without one gets a fresh `tool_<uuid>` id.
pub fn extract_tool_calls(raw: &Vec<RawToolCall>) -> (r: Vec<McpToolCall>)
    ensures
        r@.len() == raw@.len(),
        forall|k: int|
            0 <= k < r@.len() ==> {
                &&& (#[trigger] r@[k]).tool_name@ == raw@[k].name@
                &&& r@[k].parameters@ == call_parameters(raw@[k])
                &&& match raw@[k].id {
                    Some(id) => id@.len() > 0 ==> r@[k].tool_id@ == id@,
                    None => true,
                }
                &&& (match raw@[k].id {
                    Some(id) => id@.len() == 0,
                    None => true,
                }) ==> is_synthesized_id(r@[k].tool_id@)
            },
{
    let mut calls: Vec<McpToolCall> = Vec::new();
    let mut i: usize = 0;
    while i < raw.len()
        invariant
            i <= raw@.len(),
            calls@.len() == i,
            forall|k: int|
                0 <= k < i ==> {
                    &&& (#[trigger] calls@[k]).tool_name@ == raw@[k].name@
                    &&& calls@[k].parameters@ == call_parameters(raw@[k])
                    &&& calls@[k].tool_id@ == match raw@[k].id {
                        Some(id) => id@,
                        None => Seq::<char>::empty(),
                    }
                },
        decreases raw.len() - i,
    {
        let c = &raw[i];
        let parameters = if blank(c.arguments.as_str()) {
            proof {
                reveal_strlit("{}");
            }
            to_owned_string("{}")
        } else if c.arguments_are_json {
            c.arguments.clone()
        } else {
            json_quote_str(c.arguments.as_str())
        };
        let id = match &c.id {
            Some(s) => s.clone(),
            None => String::new(),
        };
        calls.push(McpToolCall { tool_name: c.name.clone(), parameters, tool_id: id });
        i = i + 1;
    }
    let ghost before = calls@;
    ensure_tool_call_ids(&mut calls);
    assert forall|k: int| 0 <= k < calls@.len() implies {
        &&& (#[trigger] calls@[k]).tool_name@ == raw@[k].name@
        &&& calls@[k].parameters@ == call_parameters(raw@[k])
        &&& match raw@[k].id {
            Some(id) => id@.len() > 0 ==> calls@[k].tool_id@ == id@,
            None => true,
        }
        &&& (match raw@[k].id {
            Some(id) => id@.len() == 0,
            None => true,
        }) ==> is_synthesized_id(calls@[k].tool_id@)
    } by {
        assert(before[k]@.tool_name == raw@[k].name@);
    }
    calls
}

/// The usage of a DeepSeek exchange: the reported token counts, no cached
/// tokens, the cost from the price table, and the request time.
pub fn deepseek_usage(
    model: &str,
    prompt_tokens: u64,
    completion_tokens: u64,
    request_time_ms: u64,
) -> (r: TokenUsage)
    ensures
        r.prompt_tokens == prompt_tokens,
        r.output_tokens == completion_tokens,
        r.total_tokens == sat_sum(prompt_tokens, completion_tokens),
        r.cached_tokens == 0,
        r.cost == calculate_cost_spec(model@, prompt_tokens, completion_tokens),
        r.request_time_ms == Some(request_time_ms),
{
    let cost = calculate_cost(model, prompt_tokens, completion_tokens);
    let total = if prompt_tokens > u64::MAX - completion_tokens {
        u64::MAX
    } else {
        prompt_tokens + completion_tokens
    };
    TokenUsage {
        prompt_tokens,
        output_tokens: completion_tokens,
        total_tokens: total,
        cached_tokens: 0,
        cost,
        request_time_ms: Some(request_time_ms),
    }
}

/// The cost [`calculate_cost`] gives.
pub open spec fn calculate_cost_spec(model: Seq<char>, prompt: u64, completion: u64) -> Option<u64> {
    if crate::cost::deepseek_priced(model) {
        Some(
            sat_sum(
                crate::cost::sat_mul(prompt, crate::cost::DEEPSEEK_INPUT_PRICE),
                crate::cost::sat_mul(completion, crate::cost::DEEPSEEK_OUTPUT_PRICE),
            ),
        )
    } else {
        None
    }
}

/// The usage of an OpenRouter exchange as the answer reports it (cost
/// already in picodollars); OpenRouter reports no cached tokens here.
pub fn openrouter_usage(
    prompt_tokens: u64,
    completion_tokens: u64,
    total_tokens: u64,
    cost: Option<u64>,
    request_time_ms: Option<u64>,
) -> (r: TokenUsage)
    ensures
        r == (TokenUsage {
            prompt_tokens,
            output_tokens: completion_tokens,
            total_tokens,
            cached_tokens: 0,
            cost,
            request_time_ms,
        }),
{
    TokenUsage { prompt_tokens, output_tokens: completion_tokens, total_tokens, cached_tokens: 0, cost, request_time_ms }
}

/// What a provider answered, ready for the session loop.
#[derive(Debug, PartialEq)]
pub struct ProviderResponse {
    pub content: String,
    pub tool_calls: Option<Vec<McpToolCall>>,
    pub finish_reason: Option<String>,
    pub usage: Option<TokenUsage>,
}

/// Assembles an answer: missing content is empty text; tool calls are
/// extracted (see [`extract_tool_calls`]) and absent when there are none;
/// the finish reason and usage pass through.
pub fn provider_response(
    content: Option<String>,
    finish_reason: Option<String>,
    raw_calls: &Vec<RawToolCall>,
    usage: Option<TokenUsage>,
) -> (r: ProviderResponse)
    ensures
        r.content@ == match content {
            Some(c) => c@,
            None => Seq::<char>::empty(),
        },
        r.finish_reason == finish_reason,
        r.usage == usage,
        raw_calls@.len() == 0 <==> r.tool_calls is None,
        match r.tool_calls {
            Some(calls) => calls@.len() == raw_calls@.len() && forall|k: int|
                0 <= k < calls@.len() ==> {
                    &&& (#[trigger] calls@[k]).tool_name@ == raw_calls@[k].name@
                    &&& calls@[k].parameters@ == call_parameters(raw_calls@[k])
                    &&& match raw_calls@[k].id {
                        Some(id) => id@.len() > 0 ==> calls@[k].tool_id@ == id@,
                        None => true,
                    }
                },
            None => true,
        },
{
    let text = match content {
        Some(c) => c,
        None => String::new(),
    };
    let calls = if raw_calls.len() == 0 {
        None
    } else {
        Some(extract_tool_calls(raw_calls))
    };
    ProviderResponse { content: text, tool_calls: calls, finish_reason, usage }
}

} // verus!
