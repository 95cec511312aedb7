use charta::rpc::{
    method_not_found_message, not_found_message, route_method, route_tool, unknown_tool_message,
    Reply, ToolAction, METHOD_NOT_FOUND, MISSING_ADDRESS, MISSING_TARGET, UNKNOWN_VERB,
};

#[test]
fn known_methods_are_routed() {
    assert_eq!(route_method("initialize", true), Reply::Initialize);
    assert_eq!(route_method("ping", true), Reply::Ping);
    assert_eq!(route_method("tools/list", true), Reply::ToolsList);
    assert_eq!(route_method("tools/call", true), Reply::ToolsCall);
    assert_eq!(route_method("tools/call", false), Reply::ToolsCall);
}

#[test]
fn unknown_method_in_request_is_not_found() {
    assert_eq!(route_method("resources/list", true), Reply::MethodNotFound);
    assert_eq!(METHOD_NOT_FOUND, -32601);
    assert_eq!(method_not_found_message("resources/list"), "method not found: resources/list");
}

#[test]
fn unknown_method_in_notification_is_silent() {
    assert_eq!(route_method("notifications/initialized", false), Reply::Silent);
    assert_eq!(route_method("", false), Reply::Silent);
}

#[test]
fn tools_are_routed() {
    assert_eq!(route_tool("charta_validate", None, false, false), ToolAction::Validate);
    assert_eq!(route_tool("charta_query", Some("orphans"), false, false), ToolAction::Orphans);
    assert_eq!(route_tool("charta_query", Some("backlinks"), true, false), ToolAction::Backlinks);
    assert_eq!(route_tool("charta_resolve", None, false, true), ToolAction::Resolve);
}

#[test]
fn tool_argument_defects_are_routed() {
    assert_eq!(
        route_tool("charta_query", Some("backlinks"), false, false),
        ToolAction::BacklinksWithoutTarget
    );
    assert_eq!(route_tool("charta_query", Some("edges"), true, true), ToolAction::UnknownVerb);
    assert_eq!(route_tool("charta_query", None, true, true), ToolAction::UnknownVerb);
    assert_eq!(route_tool("charta_resolve", Some("orphans"), true, false), ToolAction::ResolveWithoutAddress);
    assert_eq!(route_tool("charta_delete", None, true, true), ToolAction::UnknownTool);
    assert_eq!(route_tool("", None, false, false), ToolAction::UnknownTool);
}

#[test]
fn tool_error_texts() {
    assert_eq!(MISSING_TARGET, "'backlinks' requires 'target' (type/id)");
    assert_eq!(UNKNOWN_VERB, "unknown verb — use 'orphans' or 'backlinks'");
    assert_eq!(MISSING_ADDRESS, "'address' (type/id) is required");
    assert_eq!(unknown_tool_message("charta_delete"), "unknown tool: charta_delete");
}

#[test]
fn not_found_lists_known_addresses() {
    let known = vec!["company/acme".to_string(), "role/ceo".to_string()];
    assert_eq!(
        not_found_message("goal/x", &known),
        "'goal/x' not found. Known resources: company/acme, role/ceo"
    );
    assert_eq!(not_found_message("goal/x", &Vec::new()), "'goal/x' not found. Known resources: ");
}
