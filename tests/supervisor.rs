use octomind::config::McpServerConfig;
use octomind::dispatch::{route_tool_call, DispatchError};
use octomind::supervisor::{HealthAction, ServerHealth, ServerKind, ServerRegistry, ServerRestartInfo, SupervisorError};
use octomind::tool_map::{initialize_tool_map, ToolMap};
use octomind::tools::McpFunction;

#[test]
fn restart_budget_and_cooldown() {
    let mut info = ServerRestartInfo::new();
    assert_eq!(info.authorize_start(0), Ok(()));
    assert_eq!(info.restart_count(), 1);
    assert_eq!(info.health_status(), ServerHealth::Restarting);
    assert_eq!(info.authorize_start(10), Err(SupervisorError::RestartBlocked));
    assert_eq!(info.authorize_start(30), Ok(()));
    assert_eq!(info.authorize_start(60), Ok(()));
    assert_eq!(info.authorize_start(90), Err(SupervisorError::RestartBlocked));
    assert_eq!(info.restart_count(), 3);
    assert_eq!(info.health_tick(ServerKind::Process, false, 100), HealthAction::Wait);
    assert_eq!(info.health_status(), ServerHealth::Failed);
    assert_eq!(info.health_tick(ServerKind::Process, false, 200), HealthAction::Wait);
    assert!(!info.reset_failure_state(300));
    // five minutes after it was marked failed (at 100)
    assert_eq!(info.health_tick(ServerKind::Process, false, 400), HealthAction::Wait);
    assert_eq!(info.health_tick(ServerKind::Process, false, 401), HealthAction::ResetFailure);
    assert_eq!(info.health_status(), ServerHealth::Dead);
    assert_eq!(info.restart_count(), 0);
    assert_eq!(info.health_tick(ServerKind::Process, false, 402), HealthAction::Restart);
    assert_eq!(info.last_restart_time(), Some(402));
}

#[test]
fn clock_never_runs_backwards() {
    let mut info = ServerRestartInfo::new();
    assert_eq!(info.authorize_start(100), Ok(()));
    assert_eq!(info.authorize_start(5), Err(SupervisorError::RestartBlocked));
    assert!(!info.can_start(120));
    assert!(info.can_start(130));
}

#[test]
fn builtin_and_remote_servers_are_not_restarted() {
    let mut info = ServerRestartInfo::new();
    assert_eq!(info.health_tick(ServerKind::Builtin, false, 0), HealthAction::Nothing);
    assert_eq!(info.health_status(), ServerHealth::Running);
    let mut remote = ServerRestartInfo::new();
    assert_eq!(remote.health_tick(ServerKind::Remote, false, 0), HealthAction::Wait);
    assert_eq!(remote.health_status(), ServerHealth::Dead);
    assert_eq!(remote.health_tick(ServerKind::Remote, true, 30), HealthAction::Nothing);
    assert_eq!(remote.health_status(), ServerHealth::Running);
}

fn func(name: &str) -> McpFunction {
    McpFunction { name: name.to_string(), description: String::new(), parameters: "{}".to_string() }
}

#[test]
fn crashed_server_is_restarted_after_cooldown() {
    let s1 = McpServerConfig::stdin("s1", "server", vec![], 30, vec![]);
    let servers = vec![s1.clone()];
    let mut map = ToolMap::new();
    initialize_tool_map(&mut map, &servers, &vec![vec![func("t1")]]);
    let mut reg = ServerRegistry::new();
    assert_eq!(reg.authorize_start("s1", 0), Ok(()));
    assert!(reg.is_server_already_running_with_config(&s1, true, 5));
    assert_eq!(route_tool_call(&map, &reg, "t1", false).unwrap(), s1);
    // the child dies between request and response
    assert_eq!(reg.health_tick(&s1, false, 20), HealthAction::Wait);
    assert_eq!(reg.get_server_health_status("s1"), ServerHealth::Dead);
    assert_eq!(route_tool_call(&map, &reg, "t1", false), Err(DispatchError::ServerUnavailable));
    assert_eq!(reg.health_tick(&s1, false, 40), HealthAction::Restart);
    reg.record_probe("s1", true, 45);
    assert_eq!(route_tool_call(&map, &reg, "t1", false).unwrap(), s1);
    assert_eq!(route_tool_call(&map, &reg, "t1", true), Err(DispatchError::Cancelled));
    assert_eq!(route_tool_call(&map, &reg, "t9", false), Err(DispatchError::UnknownTool));
    let report = reg.get_server_status_report();
    assert_eq!(report.len(), 1);
    assert_eq!(report[0].name, "s1");
    assert_eq!(report[0].restart_count, 2);
    assert_eq!(reg.get_server_restart_info("s1").restart_count(), 2);
    assert_eq!(reg.reset_server_failure_state("missing", 0), Err(SupervisorError::UnknownServer));
}

#[test]
fn no_more_than_three_starts_in_five_minutes() {
    let mut info = ServerRestartInfo::new();
    let mut starts = Vec::new();
    let mut t = 0u64;
    while t < 2_000 {
        if info.health_tick(ServerKind::Process, false, t) == HealthAction::Restart {
            starts.push(t);
        }
        t += 10;
    }
    assert!(starts.len() >= 4);
    for i in 0..starts.len() {
        let within = starts.iter().filter(|&&s| s >= starts[i] && s <= starts[i] + 300).count();
        assert!(within <= 3);
    }
}

#[test]
fn builtin_names_always_run() {
    let mut reg = ServerRegistry::new();
    assert!(reg.is_server_already_running("developer", false, 0));
    assert!(reg.is_server_already_running("filesystem", false, 0));
    assert!(!reg.is_server_already_running("custom", false, 0));
    let remote = McpServerConfig::remote_http("r", "http://x", 5, vec![], None);
    assert!(reg.is_server_already_running_with_config(&remote, false, 0));
}

#[test]
fn explicit_reset_clears_failure_at_once() {
    let s1 = McpServerConfig::stdin("s1", "server", vec![], 30, vec![]);
    let mut reg = ServerRegistry::new();
    assert_eq!(reg.authorize_start("s1", 0), Ok(()));
    assert_eq!(reg.authorize_start("s1", 30), Ok(()));
    assert_eq!(reg.authorize_start("s1", 60), Ok(()));
    assert_eq!(reg.health_tick(&s1, false, 70), HealthAction::Wait);
    assert_eq!(reg.get_server_health_status("s1"), ServerHealth::Failed);
    assert_eq!(reg.reset_server_failure_state("s1", 80), Ok(()));
    assert_eq!(reg.get_server_health_status("s1"), ServerHealth::Dead);
    assert_eq!(reg.get_server_restart_info("s1").restart_count(), 0);
    assert_eq!(reg.authorize_start("s1", 90), Ok(()));
}

#[test]
fn recorded_health_decides_for_remote_servers() {
    let r = McpServerConfig::remote_http("r", "http://r", 5, vec![], None);
    let mut map = ToolMap::new();
    initialize_tool_map(&mut map, &vec![r.clone()], &vec![vec![func("rt")]]);
    let mut reg = ServerRegistry::new();
    assert_eq!(route_tool_call(&map, &reg, "rt", false).unwrap(), r);
    assert_eq!(reg.health_tick(&r, false, 0), HealthAction::Wait);
    assert_eq!(route_tool_call(&map, &reg, "rt", false), Err(DispatchError::ServerUnavailable));
    assert_eq!(reg.health_tick(&r, true, 30), HealthAction::Nothing);
    assert_eq!(route_tool_call(&map, &reg, "rt", false).unwrap(), r);
}

#[test]
fn monitor_restart_clears_cached_tools() {
    let s1 = McpServerConfig::stdin("s1", "server", vec![], 30, vec![]);
    let mut reg = ServerRegistry::new();
    let mut cache = octomind::cache::FunctionCache::new();
    cache.store("s1", vec![func("t1")]);
    cache.store("other", vec![func("t2")]);
    assert_eq!(octomind::cache::monitor_server(&mut reg, &mut cache, &s1, true, 0), HealthAction::Nothing);
    assert!(cache.get_cached("s1").is_some());
    assert_eq!(octomind::cache::monitor_server(&mut reg, &mut cache, &s1, false, 10), HealthAction::Restart);
    assert!(cache.get_cached("s1").is_none());
    assert!(cache.get_cached("other").is_some());
    assert!(!octomind::runner::call_provider_after_tools(true));
    assert!(octomind::runner::call_provider_after_tools(false));
}
