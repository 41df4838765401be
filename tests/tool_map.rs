use octomind::config::McpServerConfig;
use octomind::tool_map::{
    get_all_tool_names, get_server_for_tool, get_tool_server_name, initialize_tool_map,
    is_initialized, ToolMap,
};
use octomind::tools::McpFunction;

fn func(name: &str) -> McpFunction {
    McpFunction {
        name: name.to_string(),
        description: format!("{} tool", name),
        parameters: "{}".to_string(),
    }
}

#[test]
fn test_tool_map_not_initialized() {
    let map = ToolMap::new();
    assert_eq!(get_server_for_tool(&map, "test_tool"), None);
    assert_eq!(get_tool_server_name(&map, "test_tool"), None);
    assert!(!is_initialized(&map));
    assert!(get_all_tool_names(&map).is_empty());
}

#[test]
fn first_server_in_configuration_order_wins() {
    let a = McpServerConfig::stdin("A", "a-server", vec![], 30, vec![]);
    let b = McpServerConfig::remote_http("B", "http://b.example", 30, vec![], None);
    let servers = vec![a, b];
    let discovered = vec![vec![func("x"), func("y")], vec![func("y"), func("z")]];
    let mut map = ToolMap::new();
    initialize_tool_map(&mut map, &servers, &discovered);
    assert!(is_initialized(&map));
    assert_eq!(get_tool_server_name(&map, "y"), Some("A".to_string()));
    assert_eq!(get_tool_server_name(&map, "x"), Some("A".to_string()));
    assert_eq!(get_tool_server_name(&map, "z"), Some("B".to_string()));
    assert_eq!(get_tool_server_name(&map, "w"), None);
    assert_eq!(get_all_tool_names(&map), vec!["x".to_string(), "y".to_string(), "z".to_string()]);
}

#[test]
fn server_patterns_filter_what_it_offers() {
    let a = McpServerConfig::stdin("A", "a-server", vec![], 30, vec!["q*".to_string()]);
    let b = McpServerConfig::builtin("B", 30, vec![]);
    let servers = vec![a, b];
    let discovered = vec![vec![func("x"), func("query")], vec![func("x")]];
    let mut map = ToolMap::new();
    initialize_tool_map(&mut map, &servers, &discovered);
    assert_eq!(get_tool_server_name(&map, "x"), Some("B".to_string()));
    assert_eq!(get_tool_server_name(&map, "query"), Some("A".to_string()));
}
