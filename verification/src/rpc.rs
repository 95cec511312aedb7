//! The decisions of the MCP server: which reply an incoming JSON-RPC method gets, which tool
//! action a `tools/call` request names, and the texts of the errors it answers with.
use vstd::prelude::*;
use crate::text::{join, push_joined, str_eq};

verus! {

/// The JSON-RPC error code for a method the server does not know.
pub const METHOD_NOT_FOUND: i64 = -32601;

/// The answer to `backlinks` without a target.
pub const MISSING_TARGET: &'static str = "'backlinks' requires 'target' (type/id)";

/// The answer to a query verb other than `orphans` and `backlinks`.
pub const UNKNOWN_VERB: &'static str = "unknown verb — use 'orphans' or 'backlinks'";

/// The answer to `charta_resolve` without an address.
pub const MISSING_ADDRESS: &'static str = "'address' (type/id) is required";

/// What the server does with one incoming message.
#[derive(Debug, PartialEq, Eq, Structural, Clone, Copy)]
pub enum Reply {
    Initialize,
    Ping,
    ToolsList,
    ToolsCall,
    /// An unknown method in a request: answered with `METHOD_NOT_FOUND`.
    MethodNotFound,
    /// An unknown method in a notification: no answer.
    Silent,
}

/// The reply to method `method`; `has_id` tells a request from a notification.
pub open spec fn reply_for(method: Seq<char>, has_id: bool) -> Reply {
    if method == "initialize"@ {
        Reply::Initialize
    } else if method == "ping"@ {
        Reply::Ping
    } else if method == "tools/list"@ {
        Reply::ToolsList
    } else if method == "tools/call"@ {
        Reply::ToolsCall
    } else if has_id {
        Reply::MethodNotFound
    } else {
        Reply::Silent
    }
}

/// Picks the reply to an incoming message.
pub fn route_method(method: &str, has_id: bool) -> (r: Reply)
    ensures
        r == reply_for(method@, has_id),
{
    if str_eq(method, "initialize") {
        Reply::Initialize
    } else if str_eq(method, "ping") {
        Reply::Ping
    } else if str_eq(method, "tools/list") {
        Reply::ToolsList
    } else if str_eq(method, "tools/call") {
        Reply::ToolsCall
    } else if has_id {
        Reply::MethodNotFound
    } else {
        Reply::Silent
    }
}

/// The message of the `METHOD_NOT_FOUND` error.
pub fn method_not_found_message(method: &str) -> (s: String)
    ensures
        s@ == "method not found: "@ + method@,
{
    let mut s = String::new();
    s.append("method not found: ");
    s.append(method);
    s
}

/// What a `tools/call` request asks for.
#[derive(Debug, PartialEq, Eq, Structural, Clone, Copy)]
pub enum ToolAction {
    Validate,
    Orphans,
    Backlinks,
    /// `backlinks` without a target: answered with `MISSING_TARGET`.
    BacklinksWithoutTarget,
    /// `charta_query` without a known verb: answered with `UNKNOWN_VERB`.
    UnknownVerb,
    Resolve,
    /// `charta_resolve` without an address: answered with `MISSING_ADDRESS`.
    ResolveWithoutAddress,
    /// A tool the server does not offer.
    UnknownTool,
}

/// The characters of an optional string argument.
pub open spec fn opt_chars(o: Option<&str>) -> Option<Seq<char>> {
    match o {
        Some(s) => Some(s@),
        None => None,
    }
}

/// The action of a `charta_query` call with verb `verb`.
pub open spec fn query_action(verb: Option<Seq<char>>, has_target: bool) -> ToolAction {
    match verb {
        Some(v) => if v == "orphans"@ {
            ToolAction::Orphans
        } else if v == "backlinks"@ {
            if has_target {
                ToolAction::Backlinks
            } else {
                ToolAction::BacklinksWithoutTarget
            }
        } else {
            ToolAction::UnknownVerb
        },
        None => ToolAction::UnknownVerb,
    }
}

/// The action of a call of tool `name`; `verb` is its string argument `verb`, and `has_target`
/// and `has_address` say whether it carries the string arguments `target` and `address`.
pub open spec fn tool_action(
    name: Seq<char>,
    verb: Option<Seq<char>>,
    has_target: bool,
    has_address: bool,
) -> ToolAction {
    if name == "charta_validate"@ {
        ToolAction::Validate
    } else if name == "charta_query"@ {
        query_action(verb, has_target)
    } else if name == "charta_resolve"@ {
        if has_address {
            ToolAction::Resolve
        } else {
            ToolAction::ResolveWithoutAddress
        }
    } else {
        ToolAction::UnknownTool
    }
}

/// Picks the action of a `tools/call` request.
pub fn route_tool(name: &str, verb: Option<&str>, has_target: bool, has_address: bool) -> (a:
    ToolAction)
    ensures
        a == tool_action(name@, opt_chars(verb), has_target, has_address),
{
    if str_eq(name, "charta_validate") {
        ToolAction::Validate
    } else if str_eq(name, "charta_query") {
        match verb {
            Some(v) => if str_eq(v, "orphans") {
                ToolAction::Orphans
            } else if str_eq(v, "backlinks") {
                if has_target {
                    ToolAction::Backlinks
                } else {
                    ToolAction::BacklinksWithoutTarget
                }
            } else {
                ToolAction::UnknownVerb
            },
            None => ToolAction::UnknownVerb,
        }
    } else if str_eq(name, "charta_resolve") {
        if has_address {
            ToolAction::Resolve
        } else {
            ToolAction::ResolveWithoutAddress
        }
    } else {
        ToolAction::UnknownTool
    }
}

/// The answer to a call of a tool the server does not offer.
pub fn unknown_tool_message(name: &str) -> (s: String)
    ensures
        s@ == "unknown tool: "@ + name@,
{
    let mut s = String::new();
    s.append("unknown tool: ");
    s.append(name);
    s
}

/// The answer to `charta_resolve` of an address no resource has, listing the known ones.
pub fn not_found_message(address: &str, known: &Vec<String>) -> (s: String)
    ensures
        s@ == "'"@ + address@ + "' not found. Known resources: "@ + join(
            known.deep_view(),
            ", "@,
        ),
{
    let mut s = String::new();
    s.append("'");
    s.append(address);
    s.append("' not found. Known resources: ");
    push_joined(&mut s, known, ", ");
    s
}

} // verus!
