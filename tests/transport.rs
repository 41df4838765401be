use octomind::cache::is_server_running_for_cache_check;
use octomind::config::McpServerConfig;
use octomind::dispatch::{ToolErrorTracker, ToolExecutionContext};
use octomind::runner::filter_allowed_calls;
use octomind::tools::McpToolCall;
use octomind::transport::{
    create_initialize_request, create_tools_call_request, create_tools_list_request,
    classify_http_answer, display_tool_output_smart, frame_stdio_line, lines_of, http_status_alive, remote_base_url, split_lines,
    transport_error_result, PendingRequests, TransportError,
};
use octomind::tools::extract_mcp_content;

#[test]
fn json_rpc_requests() {
    assert_eq!(create_tools_list_request(), "{\"id\":1,\"jsonrpc\":\"2.0\",\"method\":\"tools/list\",\"params\":{}}");
    assert!(create_initialize_request().contains("\"method\":\"initialize\""));
    assert_eq!(
        create_tools_call_request(7, "list_files", "{\"path\":\"./src\"}"),
        "{\"id\":7,\"jsonrpc\":\"2.0\",\"method\":\"tools/call\",\"params\":{\"arguments\":{\"path\":\"./src\"},\"name\":\"list_files\"}}"
    );
    assert_eq!(frame_stdio_line("{}"), "{}\n");
}

#[test]
fn http_liveness_rule() {
    assert!(http_status_alive(200));
    assert!(http_status_alive(404));
    assert!(!http_status_alive(500));
    assert!(!http_status_alive(302));
}

#[test]
fn base_urls() {
    let r = McpServerConfig::remote_http("r", "http://host/api//", 5, vec![], None);
    assert_eq!(remote_base_url(&r), Some("http://host/api".to_string()));
    let s = McpServerConfig::stdin("s", "c", vec![], 5, vec![]);
    assert_eq!(remote_base_url(&s), None);
    assert!(is_server_running_for_cache_check(&r, false));
    assert!(!is_server_running_for_cache_check(&s, false));
    assert!(is_server_running_for_cache_check(&s, true));
}

#[test]
fn pending_ids_are_unique_and_late_answers_dropped() {
    let mut p = PendingRequests::new();
    let a = p.register().unwrap();
    let b = p.register().unwrap();
    assert!(b > a);
    assert!(p.abandon(a));
    assert!(!p.complete(a));
    assert!(p.is_waiting(b));
    assert!(p.complete(b));
    assert!(!p.is_waiting(b));
    assert!(!p.complete(99));
}

#[test]
fn lines_split_and_partial_kept() {
    let (lines, rest) = split_lines("{\"id\":1}\n{\"id\":2}\n{\"id\"");
    assert_eq!(lines, vec!["{\"id\":1}".to_string(), "{\"id\":2}".to_string()]);
    assert_eq!(rest, "{\"id\"");
    let (none, all) = split_lines("partial");
    assert!(none.is_empty());
    assert_eq!(all, "partial");
}

#[test]
fn layer_context_filters_calls() {
    let calls = vec![
        McpToolCall { tool_name: "a".to_string(), parameters: "{}".to_string(), tool_id: "1".to_string() },
        McpToolCall { tool_name: "b".to_string(), parameters: "{}".to_string(), tool_id: "2".to_string() },
    ];
    let layer = ToolExecutionContext::Layer {
        session_name: "l".to_string(),
        allowed_tools: vec!["b".to_string()],
        layer_name: "l".to_string(),
    };
    let kept = filter_allowed_calls(&layer, calls.clone());
    assert_eq!(kept.len(), 1);
    assert_eq!(kept[0].tool_id, "2");
    let main = ToolExecutionContext::MainSession { session_name: "m".to_string(), tool_calls: 0, error_tracker: ToolErrorTracker::new() };
    assert_eq!(filter_allowed_calls(&main, calls).len(), 2);
}

#[test]
fn http_answers_and_transport_errors() {
    assert_eq!(classify_http_answer(200, None), Ok(()));
    assert_eq!(classify_http_answer(503, None), Err(TransportError::HttpStatus(503)));
    assert_eq!(
        classify_http_answer(200, Some("{\"code\":-32601}".to_string())),
        Err(TransportError::RpcError("{\"code\":-32601}".to_string()))
    );
    let r = transport_error_result("t".to_string(), "id".to_string(), TransportError::HttpStatus(502));
    assert!(r.result.is_error);
    assert_eq!(r.tool_id, "id");
    assert_eq!(extract_mcp_content(&r.result), "MCP server answered with HTTP status 502");
    let t = transport_error_result("t".to_string(), "id".to_string(), TransportError::Timeout);
    assert_eq!(extract_mcp_content(&t.result), "MCP server did not answer in time");
}

#[test]
fn tool_output_display() {
    let small = "a\nb";
    assert_eq!(display_tool_output_smart(small), "a\nb");
    let many: String = (0..25).map(|k| format!("line{}\n", k)).collect();
    let shown = display_tool_output_smart(&many);
    let expected: String = (0..15).map(|k| format!("line{}\n", k)).collect::<String>() + "... [10 more lines]";
    assert_eq!(shown, expected);
    let long = "x".repeat(2500);
    let cut = display_tool_output_smart(&long);
    assert_eq!(cut.len(), 2000);
    assert!(cut.ends_with("..."));
    assert_eq!(lines_of("a\n\nb"), vec!["a".to_string(), String::new(), "b".to_string()]);
    assert_eq!(lines_of("a\n"), vec!["a".to_string()]);
}

#[test]
fn json_strings_are_escaped() {
    let r = octomind::transport::create_tools_call_request(1, "a\"b\\c\u{1}\t", "{}");
    assert!(r.ends_with(",\"name\":\"a\\\"b\\\\c\\u0001\\t\"}}"));
}
