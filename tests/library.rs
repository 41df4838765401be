use octomind::cache::{
    clear_internal_function_cache, get_cached_internal_functions, get_fallback_functions,
    internal_cache_key, monitored_servers, cleanup_servers, is_health_monitor_running,
    start_health_monitor, stop_health_monitor, CacheLookup, FunctionCache, HealthMonitor,
};
use octomind::config::{McpConnectionType, McpServerConfig, RoleMcpConfig};
use octomind::cost::{CostTracker, SessionInfo, TokenUsage};
use octomind::dispatch::{
    check_layer_tool_call, tool_failure_result, unknown_tool_message, DispatchError,
    ToolErrorTracker, ToolExecutionContext,
};
use octomind::layers::{
    combine_layer_input, should_append_user_input, should_run_layers, GenericLayer, InputMode,
    LayerConfig, OutputMode,
};
use octomind::log::{estimate_tokens, Role};
use octomind::patterns::is_tool_allowed_by_patterns;
use octomind::text::decimal;
use octomind::tools::{
    ensure_tool_call_ids, extract_mcp_content, filter_tools_by_patterns, guess_tool_category,
    parse_tool_calls, tool_results_to_messages, McpFunction, McpToolCall, McpToolResult,
};

fn strings(v: &[&str]) -> Vec<String> {
    v.iter().map(|s| s.to_string()).collect()
}

fn func(name: &str) -> McpFunction {
    McpFunction { name: name.to_string(), description: String::new(), parameters: "{}".to_string() }
}

#[test]
fn envelope_text_round_trip() {
    let r = McpToolResult::success("t".to_string(), "id".to_string(), "hello\nworld".to_string());
    assert_eq!(extract_mcp_content(&r.result), "hello\nworld");
    let e = McpToolResult::error("t".to_string(), "id".to_string(), "bad".to_string());
    assert!(e.result.is_error);
    assert_eq!(extract_mcp_content(&e.result), "bad");
    let m = McpToolResult::success_with_metadata("t".to_string(), "id".to_string(), "x".to_string(), "{\"k\":1}".to_string());
    assert_eq!(extract_mcp_content(&m.result), "x\n\n[Metadata: {\"k\":1}]");
    let empty = McpToolResult::success("t".to_string(), "id".to_string(), String::new());
    assert_eq!(extract_mcp_content(&empty.result), "");
}

#[test]
fn tool_messages_carry_the_json_envelope() {
    let r = McpToolResult::success("t".to_string(), "id_7".to_string(), "a\"b\n".to_string());
    let msgs = tool_results_to_messages(&vec![r]);
    assert_eq!(msgs.len(), 1);
    assert_eq!(msgs[0].role, "tool");
    assert_eq!(msgs[0].tool_call_id, "id_7");
    assert_eq!(msgs[0].name, "t");
    assert_eq!(msgs[0].content, "{\"content\":[{\"text\":\"a\\\"b\\n\",\"type\":\"text\"}],\"isError\":false}");
}

#[test]
fn missing_tool_ids_are_synthesized() {
    let mut calls = vec![
        McpToolCall { tool_name: "a".to_string(), parameters: "{}".to_string(), tool_id: String::new() },
        McpToolCall { tool_name: "b".to_string(), parameters: "{}".to_string(), tool_id: "keep".to_string() },
    ];
    ensure_tool_call_ids(&mut calls);
    assert!(calls[0].tool_id.starts_with("tool_"));
    assert_eq!(calls[0].tool_id.len(), 37);
    assert!(calls[0].tool_id[5..].chars().all(|c| c.is_ascii_hexdigit()));
    assert_eq!(calls[1].tool_id, "keep");
    assert_eq!(calls[0].tool_name, "a");
    assert!(parse_tool_calls("anything").is_empty());
}

#[test]
fn allowed_tool_patterns() {
    assert!(is_tool_allowed_by_patterns("x", &[]));
    assert!(is_tool_allowed_by_patterns("text_edit", &strings(&["text_*"])));
    assert!(!is_tool_allowed_by_patterns("edit", &strings(&["text_*"])));
    assert!(is_tool_allowed_by_patterns("shell", &strings(&["ls", "shell"])));
    assert!(!is_tool_allowed_by_patterns("shel", &strings(&["shell"])));
    let kept = filter_tools_by_patterns(vec![func("a_1"), func("b"), func("a_2")], &strings(&["a_*"]));
    assert_eq!(kept.iter().map(|f| f.name.clone()).collect::<Vec<_>>(), strings(&["a_1", "a_2"]));
}

#[test]
fn categories() {
    assert_eq!(guess_tool_category("core"), "system");
    assert_eq!(guess_tool_category("list_files"), "filesystem");
    assert_eq!(guess_tool_category("read_file"), "developer");
    assert_eq!(guess_tool_category("web_search"), "search");
    assert_eq!(guess_tool_category("github_pr"), "github");
    assert_eq!(guess_tool_category("gitlog"), "git");
    assert_eq!(guess_tool_category("xyz"), "external");
}

#[test]
fn server_config_accessors_and_validation() {
    let s = McpServerConfig::stdin("fs", "cmd", strings(&["-v"]), 30, vec![]);
    assert_eq!(s.name(), "fs");
    assert_eq!(s.connection_type(), McpConnectionType::Stdin);
    assert_eq!(s.command(), Some("cmd"));
    assert_eq!(s.args(), strings(&["-v"]));
    assert_eq!(s.url(), None);
    assert_eq!(s.validate(), Ok(()));
    let r = McpServerConfig::remote_http("r", "http://h", 5, strings(&["t"]), Some("SECRET-REDACTED".to_string()));
    assert_eq!(r.url(), Some("http://h"));
    assert_eq!(r.auth_token(), Some("SECRET-REDACTED"));
    assert_eq!(r.timeout_seconds(), 5);
    assert_eq!(r.tools(), &strings(&["t"]));
    let l = McpServerConfig::local_http("l", "srv", vec![], 5, vec![], None);
    assert_eq!(l.command(), Some("srv"));
    assert_eq!(l.url(), None);
    assert_eq!(McpServerConfig::builtin("", 1, vec![]).validate(), Err("Builtin server name cannot be empty".to_string()));
    assert_eq!(McpServerConfig::remote_http("r", "", 1, vec![], None).validate(), Err("Remote HTTP server URL cannot be empty".to_string()));
    assert_eq!(McpServerConfig::local_http("l", "", vec![], 1, vec![], None).validate(), Err("Local HTTP server command cannot be empty".to_string()));
    assert_eq!(McpServerConfig::stdin("s", "", vec![], 1, vec![]).validate(), Err("Stdin server command cannot be empty".to_string()));
    assert_eq!(McpServerConfig::stdin("", "c", vec![], 1, vec![]).validate(), Err("Stdin server name cannot be empty".to_string()));
    assert_eq!(McpServerConfig::remote_http("", "u", 1, vec![], None).validate(), Err("HTTP server name cannot be empty".to_string()));
}

#[test]
fn role_selects_and_filters_servers() {
    let global = vec![
        McpServerConfig::builtin("filesystem", 30, vec![]),
        McpServerConfig::builtin("developer", 30, vec![]),
    ];
    let role = RoleMcpConfig { server_refs: strings(&["developer", "missing", "filesystem"]), allowed_tools: vec![] };
    assert!(role.is_enabled());
    let picked = role.get_enabled_servers(&global);
    assert_eq!(picked.iter().map(|s| s.name().to_string()).collect::<Vec<_>>(), strings(&["developer", "filesystem"]));
    let role2 = RoleMcpConfig {
        server_refs: strings(&["filesystem"]),
        allowed_tools: strings(&["filesystem:text_*", "developer:shell", "plain"]),
    };
    assert_eq!(role2.expand_patterns_for_server("filesystem"), strings(&["text_*", "plain"]));
    assert_eq!(role2.get_enabled_servers(&global)[0].tools(), &strings(&["text_*", "plain"]));
    let role3 = RoleMcpConfig { server_refs: strings(&["developer"]), allowed_tools: strings(&["x", "developer:*"]) };
    assert!(role3.expand_patterns_for_server("developer").is_empty());
    assert!(!RoleMcpConfig::default().is_enabled());
}

#[test]
fn unknown_tool_lists_alternatives() {
    assert_eq!(
        unknown_tool_message("nope", &strings(&["a", "b"])),
        "Tool 'nope' not found in any configured MCP server. Available tools: a, b"
    );
    assert_eq!(
        unknown_tool_message("nope", &vec![]),
        "Tool 'nope' not found in any configured MCP server. Available tools: none (tool map not initialized)"
    );
}

#[test]
fn third_failure_in_a_row_is_a_loop() {
    let mut ctx = ToolExecutionContext::MainSession {
        session_name: "s".to_string(),
        tool_calls: 0,
        error_tracker: ToolErrorTracker::new(),
    };
    let r1 = tool_failure_result(&mut ctx, "t", "1", "boom");
    assert_eq!(extract_mcp_content(&r1.result), "Tool execution failed: boom");
    tool_failure_result(&mut ctx, "t", "2", "boom");
    let r3 = tool_failure_result(&mut ctx, "t", "3", "boom");
    assert!(r3.result.is_error);
    assert_eq!(
        extract_mcp_content(&r3.result),
        "LOOP DETECTED: Tool 't' failed 3 consecutive times. Last error: boom. Please try a completely different approach or ask the user for guidance."
    );
    assert_eq!(ctx.error_tracker().unwrap().get_error_count("t"), 3);
    ctx.increment_tool_calls();
    assert!(matches!(ctx, ToolExecutionContext::MainSession { tool_calls: 1, .. }));
    let mut layer = ToolExecutionContext::Layer {
        session_name: "layer_x".to_string(),
        allowed_tools: strings(&["a"]),
        layer_name: "x".to_string(),
    };
    assert!(layer.is_tool_allowed("a"));
    assert!(!layer.is_tool_allowed("b"));
    assert_eq!(layer.session_name(), "layer_x");
    assert!(layer.error_tracker().is_none());
    let lr = tool_failure_result(&mut layer, "a", "1", "e");
    assert_eq!(extract_mcp_content(&lr.result), "Tool execution failed: e");
}

#[test]
fn error_tracker_resets_on_success() {
    let mut t = ToolErrorTracker::new();
    assert!(!t.record_error("a"));
    assert!(!t.record_error("a"));
    t.record_success("a");
    assert_eq!(t.get_error_count("a"), 0);
    assert!(!t.record_error("a"));
    assert_eq!(t.max_consecutive_errors(), 3);
}

#[test]
fn layer_tool_permissions() {
    assert_eq!(check_layer_tool_call(&vec![], &vec![], "a"), Err(DispatchError::ToolsDisabled));
    assert_eq!(check_layer_tool_call(&strings(&["s"]), &strings(&["b"]), "a"), Err(DispatchError::NotAllowed));
    assert_eq!(check_layer_tool_call(&strings(&["s"]), &strings(&["a"]), "a"), Ok(()));
    assert_eq!(check_layer_tool_call(&strings(&["s"]), &vec![], "a"), Ok(()));
}

#[test]
fn exchange_costs_accumulate() {
    let mut info = SessionInfo::new("s".to_string(), "m".to_string(), "r".to_string());
    let usage = TokenUsage { prompt_tokens: 100, output_tokens: 50, total_tokens: 150, cached_tokens: 30, cost: Some(1_000), request_time_ms: Some(12) };
    CostTracker::track_exchange_cost(&mut info, &Some(usage));
    CostTracker::track_exchange_cost(&mut info, &None);
    assert_eq!((info.input_tokens, info.output_tokens, info.cached_tokens), (70, 50, 30));
    assert_eq!(info.total_cost, 1_000);
    assert_eq!(info.total_api_time_ms, 12);
    let b = CostTracker::display_cost_breakdown(&info).unwrap();
    // input weight 70, output weight 150: input share 1000 * 70 / 220
    assert_eq!(b.input, 318);
    assert_eq!(b.output, 682);
    assert_eq!(b.saved, 30 * 318 / 70);
    let empty = SessionInfo::new("s".to_string(), "m".to_string(), "r".to_string());
    assert!(CostTracker::display_cost_breakdown(&empty).is_none());
}

#[test]
fn layer_pipeline_rules() {
    assert_eq!(combine_layer_input(InputMode::Replace, "in", "out"), "out");
    assert_eq!(combine_layer_input(InputMode::Append, "in", "out"), "in\n\nout");
    assert_eq!(combine_layer_input(InputMode::Prepend, "in", "out"), "out\n\nin");
    assert!(should_run_layers(true, true));
    assert!(!should_run_layers(false, true));
    let cfg = |mode| LayerConfig {
        name: "query".to_string(),
        model: Some("layer-model".to_string()),
        temperature: 20,
        system_prompt: "be brief".to_string(),
        input_mode: InputMode::Replace,
        output_mode: mode,
        allowed_tools: vec![],
        server_refs: vec![],
    };
    assert!(should_append_user_input(&vec![cfg(OutputMode::Discard)]));
    assert!(!should_append_user_input(&vec![cfg(OutputMode::Discard), cfg(OutputMode::Append)]));
    let layer = GenericLayer::new(cfg(OutputMode::Discard));
    assert_eq!(layer.name(), "query");
    let session = layer.create_layer_chat_session("question", "main-model", true, 3);
    assert_eq!(session.name, "layer_query");
    assert_eq!(session.model, "layer-model");
    let m = session.log.messages();
    assert_eq!(m.len(), 2);
    assert_eq!(m[0].role, Role::System);
    assert!(m[0].cached);
    assert_eq!(m[1].content, "question");
    let mut pending = Some(vec![McpToolCall { tool_name: "a".to_string(), parameters: "{}".to_string(), tool_id: "1".to_string() }]);
    assert_eq!(layer.resolve_layer_tool_calls(&mut pending, "").len(), 1);
    assert!(pending.is_none());
    assert!(layer.resolve_layer_tool_calls(&mut pending, "").is_empty());
}

#[test]
fn function_cache_and_fallbacks() {
    let stdin = McpServerConfig::stdin("s", "cmd", vec![], 30, strings(&["t1", "t2"]));
    let fb = get_fallback_functions(&stdin);
    assert_eq!(fb.len(), 2);
    assert_eq!(fb[0].description, "External tool 't1' from server 's' (server not started)");
    let remote = McpServerConfig::remote_http("r", "http://x", 30, strings(&["t"]), None);
    assert_eq!(get_fallback_functions(&remote)[0].description, "External tool 't' from server 'r' (remote server)");
    let mut cache = FunctionCache::new();
    assert!(matches!(cache.get_server_functions_cached(&stdin, false), CacheLookup::Fallback(_)));
    assert!(matches!(cache.get_server_functions_cached(&stdin, true), CacheLookup::Fetch));
    assert!(matches!(cache.get_server_functions_cached(&remote, false), CacheLookup::Fetch));
    cache.store("s", vec![func("t1")]);
    match cache.get_server_functions_cached(&stdin, false) {
        CacheLookup::Hit(fs) => assert_eq!(fs[0].name, "t1"),
        _ => panic!("expected a cache hit"),
    }
    cache.clear_function_cache_for_server("s");
    assert!(cache.get_cached("s").is_none());
    cache.store("a", vec![]);
    cache.clear_all_function_cache();
    assert!(cache.get_cached("a").is_none());
    assert_eq!(internal_cache_key("web", &vec![]), "web_all");
    assert_eq!(internal_cache_key("web", &strings(&["a", "b"])), "web_a,b");
    let got = get_cached_internal_functions(&mut cache, "web", &strings(&["a*"]), vec![func("ab"), func("b")]);
    assert_eq!(got.len(), 1);
    let again = get_cached_internal_functions(&mut cache, "web", &strings(&["a*"]), vec![]);
    assert_eq!(again.len(), 1);
    clear_internal_function_cache(&mut cache);
    assert!(cache.get_cached("web_a*").is_none());
}

#[test]
fn health_monitor_switch() {
    let servers = vec![McpServerConfig::builtin("fs", 1, vec![]), McpServerConfig::stdin("s", "c", vec![], 1, vec![])];
    let mut m = HealthMonitor::new();
    assert!(!is_health_monitor_running(&m));
    assert!(start_health_monitor(&mut m, &servers));
    assert!(!start_health_monitor(&mut m, &servers));
    assert!(is_health_monitor_running(&m));
    stop_health_monitor(&mut m);
    assert!(!is_health_monitor_running(&m));
    let mut m2 = HealthMonitor::new();
    assert!(!start_health_monitor(&mut m2, &vec![McpServerConfig::builtin("fs", 1, vec![])]));
    assert_eq!(monitored_servers(&servers).len(), 1);
    assert!(start_health_monitor(&mut m2, &servers));
    assert_eq!(cleanup_servers(&mut m2, &servers), strings(&["s"]));
    assert!(!is_health_monitor_running(&m2));
}

#[test]
fn numbers_and_estimates() {
    assert_eq!(decimal(0), "0");
    assert_eq!(decimal(1234567890), "1234567890");
    assert_eq!(estimate_tokens("abcdefgh"), 2);
    assert_eq!(estimate_tokens("abc"), 0);
}

#[test]
fn session_usage_summary() {
    let mut info = SessionInfo::new("s".to_string(), "m".to_string(), "r".to_string());
    info.input_tokens = 300;
    info.cached_tokens = 100;
    info.output_tokens = 50;
    info.total_api_time_ms = 1_000;
    info.total_tool_time_ms = 200;
    info.total_layer_time_ms = 30;
    let u = CostTracker::display_session_usage(&info);
    assert_eq!(u.prompt, 400);
    assert_eq!(u.cached, 100);
    assert_eq!(u.completion, 50);
    assert_eq!(u.total, 450);
    assert_eq!(u.cached_per_mille, 250);
    assert_eq!(u.total_time_ms, 1_230);
}
