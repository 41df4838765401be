//! Tool-server configuration: the tagged server variants, the role-level
//! server selection, and the allowed-tool pattern expansion.
use vstd::prelude::*;
use vstd::string::*;
use crate::patterns::{expand_patterns, expanded_for_server};
use crate::text::{copy_opt_string, copy_strings, str_eq, to_owned_string};

verus! {

/// How an HTTP tool server is reached: a remote URL, or a local command
/// that this runtime starts itself.
#[derive(Debug, PartialEq)]
pub enum HttpConnection {
    Remote { url: String, auth_token: Option<String> },
    Local { command: String, args: Vec<String>, auth_token: Option<String> },
}

/// The transport family of a server, without its details.
#[derive(Debug, Clone, Copy, PartialEq, Eq, Structural)]
pub enum McpConnectionType {
    Builtin,
    Stdin,
    Http,
}

/// One configured tool server.
#[derive(Debug, PartialEq)]
pub enum McpServerConfig {
    Builtin { name: String, timeout_seconds: u64, tools: Vec<String> },
    Http { name: String, connection: HttpConnection, timeout_seconds: u64, tools: Vec<String> },
    Stdin {
        name: String,
        command: String,
        args: Vec<String>,
        timeout_seconds: u64,
        tools: Vec<String>,
    },
}

/// The strings of a list, as character sequences.
pub open spec fn strs(v: Seq<String>) -> Seq<Seq<char>> {
    v.map_values(|s: String| s@)
}

/// An optional string, as a character sequence.
pub open spec fn opt_str(o: Option<String>) -> Option<Seq<char>> {
    match o {
        Some(s) => Some(s@),
        None => None,
    }
}

/// The mathematical value of an [`HttpConnection`].
pub enum ConnView {
    Remote { url: Seq<char>, auth_token: Option<Seq<char>> },
    Local { command: Seq<char>, args: Seq<Seq<char>>, auth_token: Option<Seq<char>> },
}

/// The mathematical value of an [`McpServerConfig`].
pub enum ServerView {
    Builtin { name: Seq<char>, timeout_seconds: u64, tools: Seq<Seq<char>> },
    Http { name: Seq<char>, connection: ConnView, timeout_seconds: u64, tools: Seq<Seq<char>> },
    Stdin {
        name: Seq<char>,
        command: Seq<char>,
        args: Seq<Seq<char>>,
        timeout_seconds: u64,
        tools: Seq<Seq<char>>,
    },
}

impl View for HttpConnection {
    type V = ConnView;

    open spec fn view(&self) -> ConnView {
        match self {
            HttpConnection::Remote { url, auth_token } => ConnView::Remote {
                url: url@,
                auth_token: opt_str(*auth_token),
            },
            HttpConnection::Local { command, args, auth_token } => ConnView::Local {
                command: command@,
                args: strs(args@),
                auth_token: opt_str(*auth_token),
            },
        }
    }
}

impl View for McpServerConfig {
    type V = ServerView;

    open spec fn view(&self) -> ServerView {
        match self {
            McpServerConfig::Builtin { name, timeout_seconds, tools } => ServerView::Builtin {
                name: name@,
                timeout_seconds: *timeout_seconds,
                tools: strs(tools@),
            },
            McpServerConfig::Http { name, connection, timeout_seconds, tools } => ServerView::Http {
                name: name@,
                connection: connection@,
                timeout_seconds: *timeout_seconds,
                tools: strs(tools@),
            },
            McpServerConfig::Stdin { name, command, args, timeout_seconds, tools } =>
                ServerView::Stdin {
                name: name@,
                command: command@,
                args: strs(args@),
                timeout_seconds: *timeout_seconds,
                tools: strs(tools@),
            },
        }
    }
}

impl ServerView {
    pub open spec fn name(self) -> Seq<char> {
        match self {
            ServerView::Builtin { name, .. } => name,
            ServerView::Http { name, .. } => name,
            ServerView::Stdin { name, .. } => name,
        }
    }

    pub open spec fn connection_type(self) -> McpConnectionType {
        match self {
            ServerView::Builtin { .. } => McpConnectionType::Builtin,
            ServerView::Http { .. } => McpConnectionType::Http,
            ServerView::Stdin { .. } => McpConnectionType::Stdin,
        }
    }

    pub open spec fn timeout_seconds(self) -> u64 {
        match self {
            ServerView::Builtin { timeout_seconds, .. } => timeout_seconds,
            ServerView::Http { timeout_seconds, .. } => timeout_seconds,
            ServerView::Stdin { timeout_seconds, .. } => timeout_seconds,
        }
    }

    pub open spec fn tools(self) -> Seq<Seq<char>> {
        match self {
            ServerView::Builtin { tools, .. } => tools,
            ServerView::Http { tools, .. } => tools,
            ServerView::Stdin { tools, .. } => tools,
        }
    }

    /// The same server with its tool list replaced.
    pub open spec fn with_tools(self, t: Seq<Seq<char>>) -> ServerView {
        match self {
            ServerView::Builtin { name, timeout_seconds, .. } =>
                ServerView::Builtin { name, timeout_seconds, tools: t },
            ServerView::Http { name, connection, timeout_seconds, .. } =>
                ServerView::Http { name, connection, timeout_seconds, tools: t },
            ServerView::Stdin { name, command, args, timeout_seconds, .. } =>
                ServerView::Stdin { name, command, args, timeout_seconds, tools: t },
        }
    }

    /// A remote HTTP server: reached by URL, never started or restarted here.
    pub open spec fn is_remote(self) -> bool {
        match self {
            ServerView::Http { connection: ConnView::Remote { .. }, .. } => true,
            _ => false,
        }
    }

    /// The reason the configuration is unusable, if any.
    pub open spec fn validation_error(self) -> Option<Seq<char>> {
        match self {
            ServerView::Builtin { name, .. } => if name.len() == 0 {
                Some("Builtin server name cannot be empty"@)
            } else {
                None
            },
            ServerView::Http { name, connection, .. } => if name.len() == 0 {
                Some("HTTP server name cannot be empty"@)
            } else {
                match connection {
                    ConnView::Remote { url, .. } => if url.len() == 0 {
                        Some("Remote HTTP server URL cannot be empty"@)
                    } else {
                        None
                    },
                    ConnView::Local { command, .. } => if command.len() == 0 {
                        Some("Local HTTP server command cannot be empty"@)
                    } else {
                        None
                    },
                }
            },
            ServerView::Stdin { name, command, .. } => if name.len() == 0 {
                Some("Stdin server name cannot be empty"@)
            } else if command.len() == 0 {
                Some("Stdin server command cannot be empty"@)
            } else {
                None
            },
        }
    }
}

impl Clone for HttpConnection {
    fn clone(&self) -> (r: Self)
        ensures
            r@ == self@,
    {
        match self {
            HttpConnection::Remote { url, auth_token } => HttpConnection::Remote {
                url: url.clone(),
                auth_token: copy_opt_string(auth_token),
            },
            HttpConnection::Local { command, args, auth_token } => HttpConnection::Local {
                command: command.clone(),
                args: copy_strings(args),
                auth_token: copy_opt_string(auth_token),
            },
        }
    }
}

impl Clone for McpServerConfig {
    fn clone(&self) -> (r: Self)
        ensures
            r@ == self@,
    {
        match self {
            McpServerConfig::Builtin { name, timeout_seconds, tools } => McpServerConfig::Builtin {
                name: name.clone(),
                timeout_seconds: *timeout_seconds,
                tools: copy_strings(tools),
            },
            McpServerConfig::Http { name, connection, timeout_seconds, tools } =>
                McpServerConfig::Http {
                name: name.clone(),
                connection: connection.clone(),
                timeout_seconds: *timeout_seconds,
                tools: copy_strings(tools),
            },
            McpServerConfig::Stdin { name, command, args, timeout_seconds, tools } =>
                McpServerConfig::Stdin {
                name: name.clone(),
                command: command.clone(),
                args: copy_strings(args),
                timeout_seconds: *timeout_seconds,
                tools: copy_strings(tools),
            },
        }
    }
}

impl McpServerConfig {
    /// The server's name, whatever its variant.
    pub fn name(&self) -> (r: &str)
        ensures
            r@ == self@.name(),
    {
        match self {
            McpServerConfig::Builtin { name, .. } => name.as_str(),
            McpServerConfig::Http { name, .. } => name.as_str(),
            McpServerConfig::Stdin { name, .. } => name.as_str(),
        }
    }

    /// The transport family of the server.
    pub fn connection_type(&self) -> (r: McpConnectionType)
        ensures
            r == self@.connection_type(),
    {
        match self {
            McpServerConfig::Builtin { .. } => McpConnectionType::Builtin,
            McpServerConfig::Http { .. } => McpConnectionType::Http,
            McpServerConfig::Stdin { .. } => McpConnectionType::Stdin,
        }
    }

    /// The per-call timeout, in seconds.
    pub fn timeout_seconds(&self) -> (r: u64)
        ensures
            r == self@.timeout_seconds(),
    {
        match self {
            McpServerConfig::Builtin { timeout_seconds, .. } => *timeout_seconds,
            McpServerConfig::Http { timeout_seconds, .. } => *timeout_seconds,
            McpServerConfig::Stdin { timeout_seconds, .. } => *timeout_seconds,
        }
    }

    /// The allowed-tool patterns of the server (empty: all tools).
    pub fn tools(&self) -> (r: &Vec<String>)
        ensures
            strs(r@) == self@.tools(),
    {
        match self {
            McpServerConfig::Builtin { tools, .. } => tools,
            McpServerConfig::Http { tools, .. } => tools,
            McpServerConfig::Stdin { tools, .. } => tools,
        }
    }

    /// The URL of a remote HTTP server.
    pub fn url(&self) -> (r: Option<&str>)
        ensures
            match self {
                McpServerConfig::Http { connection: HttpConnection::Remote { url, .. }, .. } =>
                    r is Some && r->0@ == url@,
                _ => r is None,
            },
    {
        match self {
            McpServerConfig::Http { connection: HttpConnection::Remote { url, .. }, .. } => Some(
                url.as_str(),
            ),
            _ => None,
        }
    }

    /// The bearer token of an HTTP server, remote or local.
    pub fn auth_token(&self) -> (r: Option<&str>)
        ensures
            match self {
                McpServerConfig::Http { connection: HttpConnection::Remote { auth_token, .. }, .. } =>
                    r is Some == auth_token is Some && (r is Some ==> r->0@ == auth_token->0@),
                McpServerConfig::Http { connection: HttpConnection::Local { auth_token, .. }, .. } =>
                    r is Some == auth_token is Some && (r is Some ==> r->0@ == auth_token->0@),
                _ => r is None,
            },
    {
        match self {
            McpServerConfig::Http { connection: HttpConnection::Remote { auth_token, .. }, .. } =>
                match auth_token {
                Some(t) => Some(t.as_str()),
                None => None,
            },
            McpServerConfig::Http { connection: HttpConnection::Local { auth_token, .. }, .. } =>
                match auth_token {
                Some(t) => Some(t.as_str()),
                None => None,
            },
            _ => None,
        }
    }

    /// The command of a server that this runtime starts as a child process.
    pub fn command(&self) -> (r: Option<&str>)
        ensures
            match self {
                McpServerConfig::Stdin { command, .. } => r is Some && r->0@ == command@,
                McpServerConfig::Http { connection: HttpConnection::Local { command, .. }, .. } =>
                    r is Some && r->0@ == command@,
                _ => r is None,
            },
    {
        match self {
            McpServerConfig::Stdin { command, .. } => Some(command.as_str()),
            McpServerConfig::Http { connection: HttpConnection::Local { command, .. }, .. } => Some(
                command.as_str(),
            ),
            _ => None,
        }
    }

    /// The command-line arguments of a started server (empty for the others).
    pub fn args(&self) -> (r: Vec<String>)
        ensures
            match self {
                McpServerConfig::Stdin { args, .. } => r@ == args@,
                McpServerConfig::Http { connection: HttpConnection::Local { args, .. }, .. } =>
                    r@ == args@,
                _ => r@.len() == 0,
            },
    {
        match self {
            McpServerConfig::Stdin { args, .. } => copy_strings(args),
            McpServerConfig::Http { connection: HttpConnection::Local { args, .. }, .. } =>
                copy_strings(args),
            _ => Vec::new(),
        }
    }

    /// A builtin (in-process) server.
    pub fn builtin(name: &str, timeout_seconds: u64, tools: Vec<String>) -> (r: Self)
        ensures
            r@ == (ServerView::Builtin { name: name@, timeout_seconds, tools: strs(tools@) }),
    {
        McpServerConfig::Builtin { name: to_owned_string(name), timeout_seconds, tools }
    }

    /// A remote HTTP server.
    pub fn remote_http(
        name: &str,
        url: &str,
        timeout_seconds: u64,
        tools: Vec<String>,
        auth_token: Option<String>,
    ) -> (r: Self)
        ensures
            r@ == (ServerView::Http {
                name: name@,
                connection: ConnView::Remote { url: url@, auth_token: opt_str(auth_token) },
                timeout_seconds,
                tools: strs(tools@),
            }),
    {
        McpServerConfig::Http {
            name: to_owned_string(name),
            connection: HttpConnection::Remote { url: to_owned_string(url), auth_token },
            timeout_seconds,
            tools,
        }
    }

    /// A local HTTP server, started from `command`.
    pub fn local_http(
        name: &str,
        command: &str,
        args: Vec<String>,
        timeout_seconds: u64,
        tools: Vec<String>,
        auth_token: Option<String>,
    ) -> (r: Self)
        ensures
            r@ == (ServerView::Http {
                name: name@,
                connection: ConnView::Local {
                    command: command@,
                    args: strs(args@),
                    auth_token: opt_str(auth_token),
                },
                timeout_seconds,
                tools: strs(tools@),
            }),
    {
        McpServerConfig::Http {
            name: to_owned_string(name),
            connection: HttpConnection::Local { command: to_owned_string(command), args, auth_token },
            timeout_seconds,
            tools,
        }
    }

    /// A server spoken to over the stdin/stdout of a child process.
    pub fn stdin(
        name: &str,
        command: &str,
        args: Vec<String>,
        timeout_seconds: u64,
        tools: Vec<String>,
    ) -> (r: Self)
        ensures
            r@ == (ServerView::Stdin {
                name: name@,
                command: command@,
                args: strs(args@),
                timeout_seconds,
                tools: strs(tools@),
            }),
    {
        McpServerConfig::Stdin {
            name: to_owned_string(name),
            command: to_owned_string(command),
            args,
            timeout_seconds,
            tools,
        }
    }

    /// Checks that the fields a server needs are present.
    pub fn validate(&self) -> (r: Result<(), String>)
        ensures
            r is Ok <==> self@.validation_error() is None,
            r is Err ==> self@.validation_error() == Some(r->Err_0@),
    {
        match self {
            McpServerConfig::Builtin { name, .. } => {
                if name.as_str().is_empty() {
                    return Err(to_owned_string("Builtin server name cannot be empty"));
                }
            },
            McpServerConfig::Http { name, connection, .. } => {
                if name.as_str().is_empty() {
                    return Err(to_owned_string("HTTP server name cannot be empty"));
                }
                match connection {
                    HttpConnection::Remote { url, .. } => {
                        if url.as_str().is_empty() {
                            return Err(to_owned_string("Remote HTTP server URL cannot be empty"));
                        }
                    },
                    HttpConnection::Local { command, .. } => {
                        if command.as_str().is_empty() {
                            return Err(
                                to_owned_string("Local HTTP server command cannot be empty"),
                            );
                        }
                    },
                }
            },
            McpServerConfig::Stdin { name, command, .. } => {
                if name.as_str().is_empty() {
                    return Err(to_owned_string("Stdin server name cannot be empty"));
                }
                if command.as_str().is_empty() {
                    return Err(to_owned_string("Stdin server command cannot be empty"));
                }
            },
        }
        Ok(())
    }
}


/// The server registry and the global tool filter.
#[derive(Debug, PartialEq)]
pub struct McpConfig {
    pub servers: Vec<McpServerConfig>,
    pub allowed_tools: Vec<String>,
}

/// The servers a role uses (by name) and its allowed-tool patterns.
#[derive(Debug, PartialEq, Default)]
pub struct RoleMcpConfig {
    pub server_refs: Vec<String>,
    pub allowed_tools: Vec<String>,
}

/// The views of a list of servers.
pub open spec fn server_views(v: Seq<McpServerConfig>) -> Seq<ServerView> {
    v.map_values(|s: McpServerConfig| s@)
}

/// The first server of `g` named `name`.
pub open spec fn find_named(g: Seq<ServerView>, name: Seq<char>) -> Option<ServerView>
    decreases g.len(),
{
    if g.len() == 0 {
        None
    } else if g[0].name() == name {
        Some(g[0])
    } else {
        find_named(g.drop_first(), name)
    }
}

/// The servers that a role selects: each reference in order, resolved to the
/// first registry entry of that name (unknown names are skipped), with the
/// role's patterns applied to its tool list when the role has any.
pub open spec fn enabled_servers(
    refs: Seq<Seq<char>>,
    allowed: Seq<Seq<char>>,
    g: Seq<ServerView>,
) -> Seq<ServerView>
    decreases refs.len(),
{
    if refs.len() == 0 {
        seq![]
    } else {
        let before = enabled_servers(refs.drop_last(), allowed, g);
        match find_named(g, refs.last()) {
            Some(s) => before.push(
                if allowed.len() == 0 {
                    s
                } else {
                    s.with_tools(expanded_for_server(allowed, refs.last()))
                },
            ),
            None => before,
        }
    }
}

/// The position of the first server named `name`, if any.
fn position_named(global: &[McpServerConfig], name: &str) -> (r: Option<usize>)
    ensures
        match r {
            Some(k) => k < global@.len() && find_named(server_views(global@), name@) == Some(
                global@[k as int]@,
            ),
            None => find_named(server_views(global@), name@) is None,
        },
{
    let ghost g = server_views(global@);
    assert(g.subrange(0, g.len() as int) =~= g);
    let mut i: usize = 0;
    while i < global.len()
        invariant
            i <= global@.len(),
            g == server_views(global@),
            find_named(g, name@) == find_named(g.subrange(i as int, g.len() as int), name@),
        decreases global.len() - i,
    {
        let ghost rest = g.subrange(i as int, g.len() as int);
        assert(rest.drop_first() =~= g.subrange(i + 1, g.len() as int));
        assert(rest[0] == global@[i as int]@);
        if str_eq(global[i].name(), name) {
            return Some(i);
        }
        i = i + 1;
    }
    assert(g.subrange(i as int, g.len() as int).len() == 0);
    None
}

impl McpServerConfig {
    /// The same server with its tool list replaced.
    pub fn replace_tools(self, t: Vec<String>) -> (r: Self)
        ensures
            r@ == self@.with_tools(strs(t@)),
    {
        match self {
            McpServerConfig::Builtin { name, timeout_seconds, .. } =>
                McpServerConfig::Builtin { name, timeout_seconds, tools: t },
            McpServerConfig::Http { name, connection, timeout_seconds, .. } =>
                McpServerConfig::Http { name, connection, timeout_seconds, tools: t },
            McpServerConfig::Stdin { name, command, args, timeout_seconds, .. } =>
                McpServerConfig::Stdin { name, command, args, timeout_seconds, tools: t },
        }
    }
}

impl RoleMcpConfig {
    /// Tools are on for the role when it references at least one server.
    pub fn is_enabled(&self) -> (r: bool)
        ensures
            r == (self.server_refs@.len() > 0),
    {
        self.server_refs.len() > 0
    }

    /// The role's patterns turned into the tool list of one server.
    pub fn expand_patterns_for_server(&self, server_name: &str) -> (r: Vec<String>)
        ensures
            strs(r@) == expanded_for_server(strs(self.allowed_tools@), server_name@),
    {
        expand_patterns(&self.allowed_tools, server_name)
    }

    /// The registry entries this role uses, in reference order.
    pub fn get_enabled_servers(&self, global_servers: &[McpServerConfig]) -> (r: Vec<McpServerConfig>)
        ensures
            server_views(r@) == enabled_servers(
                strs(self.server_refs@),
                strs(self.allowed_tools@),
                server_views(global_servers@),
            ),
    {
        let ghost refs = strs(self.server_refs@);
        let ghost allowed = strs(self.allowed_tools@);
        let ghost g = server_views(global_servers@);
        let mut result: Vec<McpServerConfig> = Vec::new();
        let mut i: usize = 0;
        while i < self.server_refs.len()
            invariant
                i <= self.server_refs@.len(),
                refs == strs(self.server_refs@),
                allowed == strs(self.allowed_tools@),
                g == server_views(global_servers@),
                server_views(result@) == enabled_servers(refs.subrange(0, i as int), allowed, g),
            decreases self.server_refs.len() - i,
        {
            let server_name: &str = self.server_refs[i].as_str();
            assert(refs.subrange(0, i + 1).drop_last() =~= refs.subrange(0, i as int));
            assert(refs.subrange(0, i + 1).last() == server_name@);
            let ghost before = server_views(result@);
            match position_named(global_servers, server_name) {
                Some(k) => {
                    let mut server = global_servers[k].clone();
                    if self.allowed_tools.len() > 0 {
                        let filtered = self.expand_patterns_for_server(server_name);
                        server = server.replace_tools(filtered);
                    }
                    result.push(server);
                    assert(server_views(result@) =~= before.push(result@.last()@));
                },
                None => {},
            }
            i = i + 1;
        }
        assert(refs.subrange(0, self.server_refs@.len() as int) =~= refs);
        result
    }
}


/// The options of the `config` command.
#[derive(Debug, Default, PartialEq)]
pub struct ConfigArgs {
    pub model: Option<String>,
    pub api_key: Option<String>,
    pub log_level: Option<String>,
    pub mcp_providers: Option<String>,
    pub mcp_server: Option<String>,
    pub system: Option<String>,
    pub markdown_enable: Option<bool>,
    pub markdown_theme: Option<String>,
    pub list_themes: bool,
    pub show: bool,
    pub validate: bool,
    pub reset_default: Option<String>,
    pub show_customized: bool,
    pub show_defaults: bool,
    pub upgrade: bool,
}

} // verus!
