//! Token and cost accounting of a session, and the capability and pricing
//! rules of the providers. Costs are whole picodollars (10^-12 USD).
use vstd::prelude::*;
use crate::text::{contains, is_prefix, occurs_in, starts_with};

verus! {

/// The usage a provider reported for one exchange.
#[derive(Debug, Clone, Copy, PartialEq, Eq, Structural)]
pub struct TokenUsage {
    pub prompt_tokens: u64,
    pub output_tokens: u64,
    pub total_tokens: u64,
    pub cached_tokens: u64,
    pub cost: Option<u64>,
    pub request_time_ms: Option<u64>,
}

/// The running totals of a session.
#[derive(Debug, PartialEq)]
pub struct SessionInfo {
    pub name: String,
    pub model: String,
    pub role: String,
    pub input_tokens: u64,
    pub output_tokens: u64,
    pub cached_tokens: u64,
    pub total_cost: u64,
    pub total_api_time_ms: u64,
    pub total_tool_time_ms: u64,
    pub total_layer_time_ms: u64,
    pub tool_calls: u64,
}

/// `a + b`, capped at the largest `u64`.
pub open spec fn sat_sum(a: u64, b: u64) -> u64 {
    if a + b > u64::MAX {
        u64::MAX
    } else {
        (a + b) as u64
    }
}

fn add_capped(a: u64, b: u64) -> (r: u64)
    ensures
        r == sat_sum(a, b),
{
    if a > u64::MAX - b {
        u64::MAX
    } else {
        a + b
    }
}

impl SessionInfo {
    /// A session with all counters at zero.
    pub fn new(name: String, model: String, role: String) -> (r: Self)
        ensures
            r.name == name,
            r.model == model,
            r.role == role,
            r.input_tokens == 0 && r.output_tokens == 0 && r.cached_tokens == 0,
            r.total_cost == 0 && r.total_api_time_ms == 0 && r.total_tool_time_ms == 0,
            r.total_layer_time_ms == 0 && r.tool_calls == 0,
    {
        SessionInfo {
            name,
            model,
            role,
            input_tokens: 0,
            output_tokens: 0,
            cached_tokens: 0,
            total_cost: 0,
            total_api_time_ms: 0,
            total_tool_time_ms: 0,
            total_layer_time_ms: 0,
            tool_calls: 0,
        }
    }
}

/// The estimated split of a session's cost.
#[derive(Debug, Clone, Copy, PartialEq, Eq, Structural)]
pub struct CostBreakdown {
    pub total: u64,
    pub input: u64,
    pub output: u64,
    pub saved: u64,
}

/// Accounting of provider exchanges.
pub struct CostTracker;

impl CostTracker {
    /// Adds one exchange's usage to the session: uncached prompt tokens
    /// (prompt minus cached), output and cached tokens, API time and cost.
    /// Counters stop at the largest `u64`. No usage, no change.
    pub fn track_exchange_cost(info: &mut SessionInfo, usage: &Option<TokenUsage>)
        ensures
            match usage {
                None => *final(info) == *old(info),
                Some(u) => {
                    let regular = if u.prompt_tokens >= u.cached_tokens {
                        (u.prompt_tokens - u.cached_tokens) as u64
                    } else {
                        0u64
                    };
                    &&& final(info).input_tokens == sat_sum(old(info).input_tokens, regular)
                    &&& final(info).output_tokens == sat_sum(old(info).output_tokens, u.output_tokens)
                    &&& final(info).cached_tokens == sat_sum(old(info).cached_tokens, u.cached_tokens)
                    &&& final(info).total_api_time_ms == match u.request_time_ms {
                        Some(t) => sat_sum(old(info).total_api_time_ms, t),
                        None => old(info).total_api_time_ms,
                    }
                    &&& final(info).total_cost == match u.cost {
                        Some(c) => sat_sum(old(info).total_cost, c),
                        None => old(info).total_cost,
                    }
                    &&& final(info).name == old(info).name
                    &&& final(info).model == old(info).model
                    &&& final(info).role == old(info).role
                    &&& final(info).total_tool_time_ms == old(info).total_tool_time_ms
                    &&& final(info).total_layer_time_ms == old(info).total_layer_time_ms
                    &&& final(info).tool_calls == old(info).tool_calls
                },
            },
    {
        match usage {
            None => {},
            Some(u) => {
                let regular = if u.prompt_tokens >= u.cached_tokens {
                    u.prompt_tokens - u.cached_tokens
                } else {
                    0
                };
                match u.request_time_ms {
                    Some(t) => {
                        info.total_api_time_ms = add_capped(info.total_api_time_ms, t);
                    },
                    None => {},
                }
                info.input_tokens = add_capped(info.input_tokens, regular);
                info.output_tokens = add_capped(info.output_tokens, u.output_tokens);
                info.cached_tokens = add_capped(info.cached_tokens, u.cached_tokens);
                match u.cost {
                    Some(c) => {
                        info.total_cost = add_capped(info.total_cost, c);
                    },
                    None => {},
                }
            },
        }
    }

    /// Zeroes the token counters (after the conversation was reduced to a
    /// summary); cost and times stay.
    pub fn reset_token_counters(info: &mut SessionInfo)
        ensures
            final(info).input_tokens == 0,
            final(info).output_tokens == 0,
            final(info).cached_tokens == 0,
            final(info).total_cost == old(info).total_cost,
            final(info).total_api_time_ms == old(info).total_api_time_ms,
            final(info).tool_calls == old(info).tool_calls,
            final(info).name == old(info).name,
    {
        info.input_tokens = 0;
        info.output_tokens = 0;
        info.cached_tokens = 0;
    }

    /// The estimated split of the session cost into input and output (output
    /// tokens weighed three times input tokens) and what the cached tokens
    /// saved at the input rate. None without cost or tokens.
    pub fn display_cost_breakdown(info: &SessionInfo) -> (r: Option<CostBreakdown>)
        ensures
            ({
                let total = info.total_cost as int;
                let np = info.input_tokens as int;
                let c = info.output_tokens as int;
                let cached = info.cached_tokens as int;
                if total == 0 || np + cached + c == 0 {
                    r is None
                } else {
                    let input = if np > 0 {
                        total * np / (np + 3 * c)
                    } else {
                        0
                    };
                    &&& r is Some
                    &&& r->0.total == total
                    &&& r->0.input == input
                    &&& r->0.output == total - input
                    &&& r->0.saved == if cached > 0 && np > 0 {
                        if cached * input / np > u64::MAX {
                            u64::MAX as int
                        } else {
                            cached * input / np
                        }
                    } else {
                        0
                    }
                }
            }),
    {
        let total = info.total_cost as u128;
        let np = info.input_tokens as u128;
        let c = info.output_tokens as u128;
        let cached = info.cached_tokens as u128;
        if info.total_cost == 0 || (np + cached + c) == 0 {
            return None;
        }
        let input: u128 = if np > 0 {
            let w = np + 3 * c;
            proof {
                assert(total * np <= 0xffff_ffff_ffff_ffffu128 * 0xffff_ffff_ffff_ffffu128) by (nonlinear_arith)
                    requires
                        total <= 0xffff_ffff_ffff_ffffu128,
                        np <= 0xffff_ffff_ffff_ffffu128,
                ;
                assert(total * np <= total * w) by (nonlinear_arith)
                    requires
                        np <= w,
                        total >= 0,
                ;
                assert((total * np) / (w as int) <= total) by (nonlinear_arith)
                    requires
                        total * np <= total * w,
                        w > 0,
                        total >= 0,
                ;
            }
            total * np / w
        } else {
            0
        };
        let saved: u128 = if cached > 0 && np > 0 {
            proof {
                assert(cached * input <= 0xffff_ffff_ffff_ffffu128 * 0xffff_ffff_ffff_ffffu128) by (nonlinear_arith)
                    requires
                        cached <= 0xffff_ffff_ffff_ffffu128,
                        input <= 0xffff_ffff_ffff_ffffu128,
                ;
                assert((cached * input) / (np as int) <= cached * input) by (nonlinear_arith)
                    requires
                        np >= 1,
                        cached * input >= 0,
                ;
            }
            cached * input / np
        } else {
            0
        };
        let saved64: u64 = if saved > u64::MAX as u128 {
            u64::MAX
        } else {
            saved as u64
        };
        Some(
            CostBreakdown {
                total: info.total_cost,
                input: input as u64,
                output: info.total_cost - input as u64,
                saved: saved64,
            },
        )
    }
}

/// Prices per token of the known DeepSeek models, in picodollars:
/// 0.20 USD and 0.40 USD per million input and output tokens.
pub const DEEPSEEK_INPUT_PRICE: u64 = 200_000;

pub const DEEPSEEK_OUTPUT_PRICE: u64 = 400_000;

/// The model is one of the priced DeepSeek models.
pub open spec fn deepseek_priced(model: Seq<char>) -> bool {
    occurs_in("deepseek-chat"@, model) || occurs_in("deepseek-coder"@, model)
}

/// `a * b`, capped at the largest `u64`.
pub open spec fn sat_mul(a: u64, b: u64) -> u64 {
    if a * b > u64::MAX {
        u64::MAX
    } else {
        (a * b) as u64
    }
}

fn mul_capped(a: u64, b: u64) -> (r: u64)
    ensures
        r == sat_mul(a, b),
{
    if b != 0 && a > u64::MAX / b {
        proof {
            assert(a * b > u64::MAX) by (nonlinear_arith)
                requires
                    b > 0,
                    a > u64::MAX / b,
            ;
        }
        u64::MAX
    } else {
        proof {
            if b != 0 {
                assert(a * b <= u64::MAX) by (nonlinear_arith)
                    requires
                        b > 0,
                        a <= u64::MAX / b,
                ;
            }
        }
        a * b
    }
}

/// The cost of an exchange with a DeepSeek model, in picodollars; none for
/// a model without a price.
pub fn calculate_cost(model: &str, prompt_tokens: u64, completion_tokens: u64) -> (r: Option<u64>)
    ensures
        r is Some <==> deepseek_priced(model@),
        r is Some ==> r->0 == sat_sum(
            sat_mul(prompt_tokens, DEEPSEEK_INPUT_PRICE),
            sat_mul(completion_tokens, DEEPSEEK_OUTPUT_PRICE),
        ),
{
    if contains(model, "deepseek-chat") || contains(model, "deepseek-coder") {
        let input = mul_capped(prompt_tokens, DEEPSEEK_INPUT_PRICE);
        let output = mul_capped(completion_tokens, DEEPSEEK_OUTPUT_PRICE);
        Some(add_capped(input, output))
    } else {
        None
    }
}

/// Every DeepSeek model takes a temperature.
pub fn supports_temperature(_model: &str) -> (r: bool)
    ensures
        r,
{
    true
}

/// The DeepSeek chat-completion provider.
#[derive(Debug, Clone, Copy, PartialEq, Eq, Structural)]
pub struct DeepSeekProvider;

impl DeepSeekProvider {
    pub fn new() -> (r: Self) {
        DeepSeekProvider
    }

    pub fn name(&self) -> (r: &'static str)
        ensures
            r@ == "deepseek"@,
    {
        "deepseek"
    }

    /// The DeepSeek chat and coder models.
    pub fn supports_model(&self, model: &str) -> (r: bool)
        ensures
            r == (is_prefix("deepseek-chat"@, model@) || is_prefix("deepseek-coder"@, model@)),
    {
        starts_with(model, "deepseek-chat") || starts_with(model, "deepseek-coder")
    }

    pub fn supports_caching(&self, _model: &str) -> (r: bool)
        ensures
            !r,
    {
        false
    }

    pub fn supports_vision(&self, _model: &str) -> (r: bool)
        ensures
            !r,
    {
        false
    }

    /// The context window: 128K tokens for DeepSeek models, 8192 otherwise.
    pub fn get_max_input_tokens(&self, model: &str) -> (r: usize)
        ensures
            r == if occurs_in("deepseek"@, model@) {
                128_000usize
            } else {
                8_192usize
            },
    {
        if contains(model, "deepseek") {
            128_000
        } else {
            8_192
        }
    }
}

/// The OpenRouter chat-completion provider.
#[derive(Debug, Clone, Copy, PartialEq, Eq, Structural)]
pub struct OpenRouterProvider;

impl OpenRouterProvider {
    pub fn new() -> (r: Self) {
        OpenRouterProvider
    }

    pub fn name(&self) -> (r: &'static str)
        ensures
            r@ == "openrouter"@,
    {
        "openrouter"
    }

    /// Models written `provider/model`, or named after a provider OpenRouter
    /// carries.
    pub fn supports_model(&self, model: &str) -> (r: bool)
        ensures
            r == (occurs_in("/"@, model@) || is_prefix("anthropic"@, model@) || is_prefix(
                "openai"@,
                model@,
            ) || is_prefix("google"@, model@) || is_prefix("meta-llama"@, model@) || is_prefix(
                "mistralai"@,
                model@,
            )),
    {
        contains(model, "/") || starts_with(model, "anthropic") || starts_with(model, "openai")
            || starts_with(model, "google") || starts_with(model, "meta-llama") || starts_with(
            model,
            "mistralai",
        )
    }
}


/// The totals shown in the session usage summary.
#[derive(Debug, Clone, Copy, PartialEq, Eq, Structural)]
pub struct UsageSummary {
    /// Prompt tokens, cached ones included.
    pub prompt: u64,
    pub cached: u64,
    pub completion: u64,
    pub total: u64,
    /// Cached tokens per thousand prompt tokens.
    pub cached_per_mille: u64,
    /// API, tool and processing time together.
    pub total_time_ms: u64,
}

impl CostTracker {
    /// The session usage summary: prompt tokens (cached included), the
    /// cached share of them, completion and total tokens, and total time.
    /// Sums stop at the largest `u64`.
    pub fn display_session_usage(info: &SessionInfo) -> (r: UsageSummary)
        ensures
            r.prompt == sat_sum(info.input_tokens, info.cached_tokens),
            r.cached == info.cached_tokens,
            r.completion == info.output_tokens,
            r.total == sat_sum(r.prompt, info.output_tokens),
            r.cached_per_mille == if r.prompt == 0 {
                0
            } else {
                (info.cached_tokens as int * 1000 / r.prompt as int) as u64
            },
            r.total_time_ms == sat_sum(
                sat_sum(info.total_api_time_ms, info.total_tool_time_ms),
                info.total_layer_time_ms,
            ),
    {
        let prompt = add_capped(info.input_tokens, info.cached_tokens);
        let total = add_capped(prompt, info.output_tokens);
        let per_mille: u64 = if prompt == 0 {
            0
        } else {
            let c = info.cached_tokens as u128;
            let p = prompt as u128;
            proof {
                assert(c <= p);
                assert(c * 1000 <= p * 1000) by (nonlinear_arith)
                    requires
                        c <= p,
                ;
                assert((c * 1000) / (p as int) <= 1000) by (nonlinear_arith)
                    requires
                        c * 1000 <= p * 1000,
                        p > 0,
                ;
            }
            ((c * 1000) / p) as u64
        };
        let time = add_capped(add_capped(info.total_api_time_ms, info.total_tool_time_ms), info.total_layer_time_ms);
        UsageSummary {
            prompt,
            cached: info.cached_tokens,
            completion: info.output_tokens,
            total,
            cached_per_mille: per_mille,
            total_time_ms: time,
        }
    }
}

} // verus!
