use octomind::dispatch::{apply_large_response_decision, response_token_estimate, ToolErrorTracker, ToolExecutionContext};
use octomind::log::{CheckpointTracker, LogError, Message, MessageLog, Role};
use octomind::runner::{InterruptState, check_should_continue, continue_tool_loop, finish_tool_turn, handle_cancellation, RunnerState, ToolOutcome};
use octomind::tools::{extract_mcp_content, McpToolCall, McpToolResult};
use octomind::cost::{CostTracker, SessionInfo};

fn msg(role: Role, content: &str) -> Message {
    Message {
        role,
        content: content.to_string(),
        timestamp: 0,
        cached: false,
        tool_call_id: None,
        name: None,
        tool_calls: vec![],
    }
}

fn call(name: &str, id: &str, params: &str) -> McpToolCall {
    McpToolCall { tool_name: name.to_string(), parameters: params.to_string(), tool_id: id.to_string() }
}

fn assistant_with(calls: Vec<McpToolCall>) -> Message {
    let mut m = msg(Role::Assistant, "");
    m.tool_calls = calls;
    m
}

fn main_ctx() -> ToolExecutionContext {
    ToolExecutionContext::MainSession {
        session_name: "s".to_string(),
        tool_calls: 0,
        error_tracker: ToolErrorTracker::new(),
    }
}

fn ids(m: &Message) -> Vec<String> {
    m.tool_calls.iter().map(|c| c.tool_id.clone()).collect()
}

#[test]
fn single_builtin_tool_turn() {
    let mut log = MessageLog::new();
    log.append(msg(Role::System, "system")).unwrap();
    log.append(msg(Role::User, "list ./src")).unwrap();
    let calls = vec![call("list_files", "call_1", "{\"path\":\"./src\"}")];
    log.append(assistant_with(calls.clone())).unwrap();
    assert!(!log.is_idle());
    let outcomes = vec![ToolOutcome::Completed(McpToolResult::success(
        "list_files".to_string(),
        "call_1".to_string(),
        "main.rs\nlib.rs".to_string(),
    ))];
    let mut ctx = main_ctx();
    let results = finish_tool_turn(&mut log, &mut ctx, &calls, &outcomes, 1).unwrap();
    assert_eq!(results.len(), 1);
    assert!(log.is_idle());
    log.append(msg(Role::Assistant, "The directory holds main.rs and lib.rs.")).unwrap();
    let m = log.messages();
    assert_eq!(m.len(), 5);
    assert_eq!(ids(&m[2]), vec!["call_1".to_string()]);
    assert_eq!(m[3].role, Role::Tool);
    assert_eq!(m[3].tool_call_id, Some("call_1".to_string()));
    assert!(m[3].content.contains("main.rs"));
    assert_eq!(m[4].role, Role::Assistant);
    assert!(!check_should_continue(Some("stop"), false));
}

#[test]
fn parallel_tools_both_answered() {
    let mut log = MessageLog::new();
    log.append(msg(Role::User, "run both")).unwrap();
    let calls = vec![call("t1", "id_1", "{}"), call("t2", "id_2", "{}")];
    log.append(assistant_with(calls.clone())).unwrap();
    let outcomes = vec![
        ToolOutcome::Completed(McpToolResult::success("t1".to_string(), "id_1".to_string(), "one".to_string())),
        ToolOutcome::Completed(McpToolResult::success("t2".to_string(), "id_2".to_string(), "two".to_string())),
    ];
    let mut ctx = main_ctx();
    finish_tool_turn(&mut log, &mut ctx, &calls, &outcomes, 1).unwrap();
    let m = log.messages();
    assert_eq!(m.len(), 4);
    assert_eq!(ids(&m[1]), vec!["id_1".to_string(), "id_2".to_string()]);
    assert_eq!(m[2].tool_call_id, Some("id_1".to_string()));
    assert_eq!(m[3].tool_call_id, Some("id_2".to_string()));
    assert!(log.append(msg(Role::Assistant, "done")).is_ok());
}

#[test]
fn declined_large_output_drops_its_tool_call() {
    let big = "x".repeat(80_000);
    let res = McpToolResult::success("reader".to_string(), "id_a".to_string(), big);
    let estimate = response_token_estimate(&res);
    assert!(estimate >= 20_000);
    let (declined_result, declined) = apply_large_response_decision(res, estimate, 10_000, true, false);
    assert!(declined);
    assert!(declined_result.result.is_error);
    assert!(extract_mcp_content(&declined_result.result).starts_with("User declined to process large output from tool 'reader' ("));

    let mut log = MessageLog::new();
    log.append(msg(Role::User, "read")).unwrap();
    let calls = vec![call("reader", "id_a", "{}"), call("other", "id_b", "{}")];
    log.append(assistant_with(calls.clone())).unwrap();
    let outcomes = vec![
        ToolOutcome::Declined(declined_result),
        ToolOutcome::Completed(McpToolResult::success("other".to_string(), "id_b".to_string(), "ok".to_string())),
    ];
    let mut ctx = main_ctx();
    finish_tool_turn(&mut log, &mut ctx, &calls, &outcomes, 1).unwrap();
    let m = log.messages();
    assert_eq!(ids(&m[1]), vec!["id_b".to_string()]);
    assert_eq!(m.len(), 3);
    assert!(log.is_idle());
}

#[test]
fn accepted_large_output_passes() {
    let res = McpToolResult::success("reader".to_string(), "id".to_string(), "y".repeat(100));
    let (r, declined) = apply_large_response_decision(res.clone(), 20_000, 10_000, true, true);
    assert!(!declined);
    assert_eq!(r, res);
    let (r2, declined2) = apply_large_response_decision(res.clone(), 20_000, 10_000, false, false);
    assert!(!declined2);
    assert_eq!(r2, res);
}

#[test]
fn cancellation_during_fan_out_keeps_completed() {
    let mut log = MessageLog::new();
    log.append(msg(Role::User, "two tools")).unwrap();
    let calls = vec![call("a", "A", "{}"), call("b", "B", "{}")];
    log.append(assistant_with(calls.clone())).unwrap();
    let outcomes = vec![
        ToolOutcome::Completed(McpToolResult::success("a".to_string(), "A".to_string(), "done".to_string())),
        ToolOutcome::Cancelled,
    ];
    let mut ctx = main_ctx();
    finish_tool_turn(&mut log, &mut ctx, &calls, &outcomes, 1).unwrap();
    let m = log.messages();
    assert_eq!(m.len(), 3);
    assert_eq!(ids(&m[1]), vec!["A".to_string()]);
    assert_eq!(m[2].tool_call_id, Some("A".to_string()));
    assert!(log.is_idle());
    assert!(log.append(msg(Role::User, "next")).is_ok());
}

#[test]
fn cancellation_with_nothing_completed_clears_tool_calls() {
    let mut log = MessageLog::new();
    log.append(msg(Role::User, "go")).unwrap();
    let calls = vec![call("a", "A", "{}")];
    log.append(assistant_with(calls.clone())).unwrap();
    let mut ctx = main_ctx();
    finish_tool_turn(&mut log, &mut ctx, &calls, &vec![ToolOutcome::Cancelled], 1).unwrap();
    assert_eq!(log.messages().len(), 2);
    assert!(log.messages()[1].tool_calls.is_empty());
    assert!(log.is_idle());
}

#[test]
fn cancellation_when_idle_changes_nothing() {
    let mut log = MessageLog::new();
    log.append(msg(Role::System, "sys")).unwrap();
    log.append(msg(Role::User, "hi")).unwrap();
    let before: Vec<Message> = log.messages().clone();
    assert_eq!(handle_cancellation(&mut log, RunnerState::Idle), RunnerState::Idle);
    assert_eq!(handle_cancellation(&mut log, RunnerState::Idle), RunnerState::Idle);
    assert_eq!(log.messages(), &before);
}

#[test]
fn cancellation_while_calling_provider_drops_user_turn() {
    let mut log = MessageLog::new();
    log.append(msg(Role::System, "sys")).unwrap();
    log.append(msg(Role::User, "hi")).unwrap();
    log.append(msg(Role::Assistant, "")).unwrap();
    handle_cancellation(&mut log, RunnerState::CallingApi);
    assert_eq!(log.messages().len(), 1);
    log.append(msg(Role::User, "again")).unwrap();
    handle_cancellation(&mut log, RunnerState::ProcessingLayers);
    assert_eq!(log.messages().len(), 1);
}

#[test]
fn role_rules_reject_bad_appends() {
    let mut log = MessageLog::new();
    log.append(msg(Role::User, "u")).unwrap();
    assert_eq!(log.append(msg(Role::System, "late")), Err(LogError::SystemNotFirst));
    let mut tool = msg(Role::Tool, "r");
    tool.tool_call_id = Some("nope".to_string());
    assert_eq!(log.append(tool), Err(LogError::UnexpectedToolResult));
    let mut u = msg(Role::User, "with calls");
    u.tool_calls = vec![call("a", "1", "{}")];
    assert_eq!(log.append(u), Err(LogError::ToolCallsNotAllowed));
    let dup = assistant_with(vec![call("a", "1", "{}"), call("b", "1", "{}")]);
    assert_eq!(log.append(dup), Err(LogError::DuplicateToolCallId));
    log.append(assistant_with(vec![call("a", "1", "{}")])).unwrap();
    assert_eq!(log.append(msg(Role::User, "too early")), Err(LogError::ToolResultsPending));
    let mut ok = msg(Role::Tool, "r");
    ok.tool_call_id = Some("1".to_string());
    assert!(log.append(ok).is_ok());
    let mut ctx = main_ctx();
    assert_eq!(finish_tool_turn(&mut log, &mut ctx, &vec![], &vec![], 0), Err(LogError::NoOpenToolTurn));
}

#[test]
fn decline_removes_one_call() {
    let mut log = MessageLog::new();
    log.append(msg(Role::User, "u")).unwrap();
    log.append(assistant_with(vec![call("a", "1", "{}"), call("b", "2", "{}")])).unwrap();
    log.decline_tool_call("1").unwrap();
    assert_eq!(ids(&log.messages()[1]), vec!["2".to_string()]);
    log.decline_tool_call("2").unwrap();
    assert!(log.messages()[1].tool_calls.is_empty());
    assert!(log.is_idle());
}

#[test]
fn cache_markers_stay_within_budget() {
    let mut log = MessageLog::new();
    log.append(msg(Role::System, "sys")).unwrap();
    for k in 0..6 {
        log.append(msg(if k % 2 == 0 { Role::User } else { Role::Assistant }, "m")).unwrap();
    }
    assert!(log.ensure_cache_markers(true, 0, 2_000) == false);
    assert!(log.messages()[0].cached);
    for k in 1..7 {
        assert!(log.mark_cached(k));
        assert!(log.count_cached() <= 4);
    }
    let marked: Vec<bool> = log.messages().iter().map(|m| m.cached).collect();
    assert_eq!(marked, vec![true, false, false, false, true, true, true]);
    assert!(log.ensure_cache_markers(true, 5_000, 2_000));
    assert!(log.messages()[6].cached);
    let mut plain = MessageLog::new();
    plain.append(msg(Role::System, "sys")).unwrap();
    assert!(!plain.ensure_cache_markers(false, 5_000, 2_000));
    assert!(!plain.messages()[0].cached);
}

#[test]
fn truncation_keeps_first_and_last_user_message() {
    let mut log = MessageLog::new();
    log.append(msg(Role::System, "sys")).unwrap();
    let long = "z".repeat(400);
    for _ in 0..3 {
        log.append(msg(Role::User, &long)).unwrap();
        log.append(assistant_with(vec![call("t", "c", "{}")])).unwrap();
        let mut t = msg(Role::Tool, &long);
        t.tool_call_id = Some("c".to_string());
        log.append(t).unwrap();
        log.append(msg(Role::Assistant, &long)).unwrap();
    }
    log.append(msg(Role::User, "last question")).unwrap();
    assert_eq!(log.messages().len(), 14);
    assert_eq!(log.truncate_if_needed(false, 10), None);
    assert_eq!(log.truncate_if_needed(true, 1_000_000), None);
    // 903 estimated tokens; the nearest cut within 500 starts at message 8
    let cut = log.truncate_if_needed(true, 500).unwrap();
    assert_eq!(cut, 8);
    let m = log.messages();
    assert_eq!(m.len(), 7);
    assert_eq!(m[0].content, "sys");
    assert_eq!(m[1].role, Role::Assistant);
    assert!(m[1].tool_calls.is_empty());
    assert!(log.is_idle());
    // no cut reaches 1 token: the farthest one keeps only the last user message
    let cut2 = log.truncate_if_needed(true, 1).unwrap();
    let m2 = log.messages();
    assert_eq!(cut2, 6);
    assert_eq!(m2.len(), 2);
    assert_eq!(m2[1].content, "last question");
}

#[test]
fn context_reduction_leaves_system_and_summary() {
    let mut log = MessageLog::new();
    log.append(msg(Role::System, "sys")).unwrap();
    for k in 0..49 {
        log.append(msg(if k % 2 == 0 { Role::User } else { Role::Assistant }, "text")).unwrap();
    }
    assert_eq!(log.messages().len(), 50);
    log.apply_context_reduction("summary".to_string(), 7);
    let m = log.messages();
    assert_eq!(m.len(), 2);
    assert_eq!(m[0].role, Role::System);
    assert_eq!(m[1].role, Role::Assistant);
    assert_eq!(m[1].content, "summary");
    assert!(m[1].cached);
    assert!(log.is_idle());
    let mut info = SessionInfo::new("s".to_string(), "m".to_string(), "r".to_string());
    info.input_tokens = 10;
    info.output_tokens = 20;
    info.cached_tokens = 5;
    CostTracker::reset_token_counters(&mut info);
    assert_eq!((info.input_tokens, info.output_tokens, info.cached_tokens), (0, 0, 0));
}

#[test]
fn loop_continuation_rules() {
    assert!(check_should_continue(Some("tool_calls"), false));
    assert!(check_should_continue(Some("tool_use"), false));
    assert!(!check_should_continue(Some("length"), true));
    assert!(!check_should_continue(Some("end_turn"), true));
    assert!(check_should_continue(Some("other"), false));
    assert!(check_should_continue(None, true));
    assert!(!check_should_continue(None, false));
    assert!(continue_tool_loop(Some("tool_use"), true));
    assert!(!continue_tool_loop(Some("tool_use"), false));
    assert!(!continue_tool_loop(Some("stop"), true));
}

#[test]
fn second_interrupt_exits_with_130() {
    let mut s = InterruptState::new();
    assert_eq!(s.on_interrupt(), None);
    assert!(s.is_cancelled());
    assert_eq!(s.on_interrupt(), Some(130));
    s.reset();
    assert!(!s.is_cancelled());
    assert_eq!(s.on_interrupt(), None);
}

#[test]
fn checkpoint_after_enough_uncached_tokens() {
    let mut log = MessageLog::new();
    log.append(msg(Role::System, "sys")).unwrap();
    log.append(msg(Role::User, "q")).unwrap();
    let mut t = CheckpointTracker::new();
    t.record_input(1_500);
    assert!(!t.apply(&mut log, true, 2_000));
    assert!(log.messages()[0].cached);
    assert!(!log.messages()[1].cached);
    t.record_input(1_000);
    assert!(t.apply(&mut log, true, 2_000));
    assert!(log.messages()[1].cached);
    assert!(!t.apply(&mut log, true, 2_000));
}

#[test]
fn system_message_cached_before_layers() {
    let mut log = MessageLog::new();
    log.append(msg(Role::System, "sys")).unwrap();
    assert!(log.cache_system_message());
    assert!(log.messages()[0].cached);
    assert!(!log.cache_system_message());
    let mut no_system = MessageLog::new();
    no_system.append(msg(Role::User, "u")).unwrap();
    assert!(!no_system.cache_system_message());
    assert!(!no_system.messages()[0].cached);
}
