use octomind::log::{Message, MessageLog, Role};
use octomind::providers::{
    convert_messages, deepseek_usage, extract_tool_calls, openrouter_usage, provider_response,
    tool_definitions, RawToolCall,
};
use octomind::tools::McpFunction;
use octomind::cost::{calculate_cost, supports_temperature, DeepSeekProvider, OpenRouterProvider};

#[test]
fn test_supports_temperature() {
    assert!(supports_temperature("deepseek-chat"));
    assert!(supports_temperature("deepseek-coder"));
}

#[test]
fn test_supports_model() {
    let provider = DeepSeekProvider::new();
    assert!(provider.supports_model("deepseek-chat"));
    assert!(provider.supports_model("deepseek-coder"));
    assert!(!provider.supports_model("gpt-4"));
}

#[test]
fn test_calculate_cost() {
    // 1000 input, 1000 output tokens for deepseek-chat; costs are picodollars
    let cost = calculate_cost("deepseek-chat", 1000, 1000).unwrap() as f64 / 1e12;
    // Should be 0.0002 + 0.0004 = 0.0006 USD
    assert!((cost - 0.0006).abs() < 1e-6);
}

#[test]
fn unpriced_model_has_no_cost() {
    assert_eq!(calculate_cost("gpt-4", 10, 10), None);
    assert_eq!(calculate_cost("deepseek-coder", 2, 3), Some(2 * 200_000 + 3 * 400_000));
}

#[test]
fn context_windows_and_openrouter_rules() {
    let d = DeepSeekProvider::new();
    assert_eq!(d.get_max_input_tokens("deepseek-chat"), 128_000);
    assert_eq!(d.get_max_input_tokens("other"), 8_192);
    assert_eq!(d.name(), "deepseek");
    assert!(!d.supports_caching("deepseek-chat"));
    let o = OpenRouterProvider::new();
    assert!(o.supports_model("openai/gpt-4o"));
    assert!(o.supports_model("openai-gpt"));
    assert!(o.supports_model("mistralai-large"));
    assert!(!o.supports_model("llama"));
    assert_eq!(o.name(), "openrouter");
}


fn plain(role: Role, text: &str) -> Message {
    Message { role, content: text.to_string(), timestamp: 0, cached: false, tool_call_id: None, name: None, tool_calls: vec![] }
}

#[test]
fn log_becomes_provider_messages() {
    let mut log = MessageLog::new();
    log.append(plain(Role::System, "sys")).unwrap();
    log.append(plain(Role::User, "hi")).unwrap();
    log.mark_cached(0);
    let with = convert_messages(&log, true);
    assert_eq!(with.len(), 2);
    assert!(with[0].cache_control);
    assert!(!with[1].cache_control);
    assert_eq!(with[1].content, "hi");
    assert_eq!(with[1].role, Role::User);
    let without = convert_messages(&log, false);
    assert!(!without[0].cache_control);
}

#[test]
fn last_tool_definition_carries_cache_marker() {
    let fs = vec![
        McpFunction { name: "a".to_string(), description: "A".to_string(), parameters: "{}".to_string() },
        McpFunction { name: "b".to_string(), description: "B".to_string(), parameters: "{}".to_string() },
    ];
    let defs = tool_definitions(&fs, true);
    assert!(!defs[0].cache_control);
    assert!(defs[1].cache_control);
    assert!(tool_definitions(&fs, false).iter().all(|d| !d.cache_control));
}

#[test]
fn answer_tool_calls_and_usage() {
    let raw = vec![
        RawToolCall { id: Some("call_9".to_string()), name: "t".to_string(), arguments: "{\"x\":1}".to_string(), arguments_are_json: true },
        RawToolCall { id: None, name: "u".to_string(), arguments: "  ".to_string(), arguments_are_json: false },
        RawToolCall { id: Some("c".to_string()), name: "v".to_string(), arguments: "plain".to_string(), arguments_are_json: false },
    ];
    let calls = extract_tool_calls(&raw);
    assert_eq!(calls[0].tool_id, "call_9");
    assert_eq!(calls[0].parameters, "{\"x\":1}");
    assert!(calls[1].tool_id.starts_with("tool_"));
    assert_eq!(calls[1].parameters, "{}");
    assert_eq!(calls[2].parameters, "\"plain\"");
    let u = deepseek_usage("deepseek-chat", 1000, 1000, 7);
    assert_eq!(u.cost, Some(600_000_000));
    assert_eq!(u.total_tokens, 2000);
    assert_eq!(u.request_time_ms, Some(7));
    let o = openrouter_usage(1, 2, 3, Some(4), None);
    assert_eq!((o.prompt_tokens, o.output_tokens, o.total_tokens, o.cost), (1, 2, 3, Some(4)));
    let resp = provider_response(None, Some("tool_calls".to_string()), &raw, Some(o));
    assert_eq!(resp.content, "");
    assert_eq!(resp.tool_calls.unwrap().len(), 3);
    let none = provider_response(Some("done".to_string()), Some("stop".to_string()), &vec![], None);
    assert!(none.tool_calls.is_none());
    assert_eq!(none.content, "done");
}
