//! Per-server memo of discovered tool definitions, the placeholder
//! definitions offered while a server is not running, and the health
//! monitor's on/off state.
use vstd::prelude::*;
use vstd::string::*;
use crate::config::{McpConnectionType, McpServerConfig, ServerView, strs};
use crate::supervisor::{kind_of, server_kind, tick, HealthAction, ServerKind, ServerRegistry};
use crate::text::{str_eq, to_owned_string};
use crate::tools::{FunctionView, McpFunction, filter_tools_by_patterns, function_views, keep_allowed};

verus! {

/// The definitions cached for one server.
pub struct CacheEntry {
    pub server: String,
    pub functions: Vec<McpFunction>,
}

/// Discovered tool definitions by server name, kept until the server
/// restarts. At most one entry per server.
pub struct FunctionCache {
    entries: Vec<CacheEntry>,
}

/// What to do to get a server's definitions.
pub enum CacheLookup {
    /// They are cached.
    Hit(Vec<McpFunction>),
    /// The server runs: ask it with `tools/list`, then store the answer.
    Fetch,
    /// The server does not run: offer these placeholders, without starting it.
    Fallback(Vec<McpFunction>),
}

impl FunctionCache {
    pub closed spec fn entries_view(&self) -> Seq<(Seq<char>, Seq<FunctionView>)> {
        self.entries@.map_values(|e: CacheEntry| (e.server@, function_views(e.functions@)))
    }

    /// The cache holds `fs` for server `name`.
    pub open spec fn holds(&self, name: Seq<char>, fs: Seq<FunctionView>) -> bool {
        exists|k: int| 0 <= k < self.entries_view().len() && #[trigger] self.entries_view()[k] == (name, fs)
    }

    pub closed spec fn wf(&self) -> bool {
        forall|i: int, j: int|
            0 <= i < j < self.entries@.len() ==> #[trigger] self.entries@[i].server@ != #[trigger] self.entries@[j].server@
    }

    /// An empty cache.
    pub fn new() -> (r: Self)
        ensures
            r.wf(),
            forall|n: Seq<char>, fs: Seq<FunctionView>| !r.holds(n, fs),
    {
        FunctionCache { entries: Vec::new() }
    }

    fn copy_functions(v: &Vec<McpFunction>) -> (r: Vec<McpFunction>)
        ensures
            function_views(r@) == function_views(v@),
    {
        let mut out: Vec<McpFunction> = Vec::new();
        let mut i: usize = 0;
        while i < v.len()
            invariant
                i <= v@.len(),
                out@.len() == i,
                forall|k: int| 0 <= k < i ==> #[trigger] out@[k]@ == v@[k]@,
            decreases v.len() - i,
        {
            out.push(v[i].clone());
            i = i + 1;
        }
        assert(function_views(out@) =~= function_views(v@));
        out
    }

    /// The cached definitions of `server_name`.
    pub fn get_cached(&self, server_name: &str) -> (r: Option<Vec<McpFunction>>)
        requires
            self.wf(),
        ensures
            match r {
                Some(fs) => self.holds(server_name@, function_views(fs@)) && forall|x: Seq<FunctionView>|
                    #[trigger] self.holds(server_name@, x) ==> x == function_views(fs@),
                None => forall|fs: Seq<FunctionView>| !self.holds(server_name@, fs),
            },
    {
        let mut i: usize = 0;
        while i < self.entries.len()
            invariant
                self.wf(),
                i <= self.entries@.len(),
                forall|k: int| 0 <= k < i ==> (#[trigger] self.entries@[k]).server@ != server_name@,
            decreases self.entries.len() - i,
        {
            if str_eq(self.entries[i].server.as_str(), server_name) {
                let fs = Self::copy_functions(&self.entries[i].functions);
                assert(self.entries_view()[i as int] == (server_name@, function_views(fs@)));
                assert forall|x: Seq<FunctionView>| #[trigger] self.holds(server_name@, x) implies x == function_views(fs@) by {
                    let k = choose|k: int| 0 <= k < self.entries_view().len() && #[trigger] self.entries_view()[k] == (server_name@, x);
                    if k != i {
                        if k < i {
                            assert(self.entries@[k].server@ != self.entries@[i as int].server@);
                        } else {
                            assert(self.entries@[i as int].server@ != self.entries@[k].server@);
                        }
                    }
                }
                return Some(fs);
            }
            i = i + 1;
        }
        assert forall|fs: Seq<FunctionView>| !self.holds(server_name@, fs) by {
            if self.holds(server_name@, fs) {
                let k = choose|k: int| 0 <= k < self.entries_view().len() && #[trigger] self.entries_view()[k] == (server_name@, fs);
                assert(self.entries@[k].server@ == server_name@);
            }
        }
        None
    }

    /// Forgets the definitions of `server_name` (it restarted).
    pub fn clear_function_cache_for_server(&mut self, server_name: &str)
        requires
            old(self).wf(),
        ensures
            final(self).wf(),
            forall|fs: Seq<FunctionView>| !final(self).holds(server_name@, fs),
            forall|n: Seq<char>, fs: Seq<FunctionView>|
                n != server_name@ ==> (#[trigger] final(self).holds(n, fs) <==> old(self).holds(n, fs)),
    {
        let ghost old_v = self.entries_view();
        let mut kept: Vec<CacheEntry> = Vec::new();
        let mut i: usize = 0;
        while i < self.entries.len()
            invariant
                i <= self.entries@.len(),
                old_v == self.entries_view(),
                self.wf(),
                forall|a: int, b: int| 0 <= a < b < kept@.len() ==> #[trigger] kept@[a].server@ != #[trigger] kept@[b].server@,
                forall|k: int| 0 <= k < kept@.len() ==> (#[trigger] kept@[k]).server@ != server_name@,
                forall|k: int| 0 <= k < kept@.len() ==> exists|j: int| 0 <= j < i && (#[trigger] old_v[j]) == ((#[trigger] kept@[k]).server@, function_views(kept@[k].functions@)),
                forall|j: int| 0 <= j < i && (#[trigger] old_v[j]).0 != server_name@ ==> exists|k: int| 0 <= k < kept@.len() && old_v[j] == ((#[trigger] kept@[k]).server@, function_views(kept@[k].functions@)),
            decreases self.entries.len() - i,
        {
            let e = &self.entries[i];
            assert(old_v[i as int] == (e.server@, function_views(e.functions@)));
            if !str_eq(e.server.as_str(), server_name) {
                let ghost before = kept@;
                let entry = CacheEntry { server: e.server.clone(), functions: Self::copy_functions(&e.functions) };
                kept.push(entry);
                proof {
                    assert(kept@[before.len() as int] == entry);
                    assert forall|a: int, b: int| 0 <= a < b < kept@.len() implies #[trigger] kept@[a].server@ != #[trigger] kept@[b].server@ by {
                        if b == before.len() {
                            assert(kept@[a] == before[a]);
                            let j = choose|j: int| 0 <= j < i && (#[trigger] old_v[j]) == ((#[trigger] before[a]).server@, function_views(before[a].functions@));
                            assert(self.entries@[j].server@ != self.entries@[i as int].server@);
                        } else {
                            assert(kept@[a] == before[a] && kept@[b] == before[b]);
                        }
                    }
                    assert forall|k: int| 0 <= k < kept@.len() implies exists|j: int| 0 <= j < i + 1 && (#[trigger] old_v[j]) == ((#[trigger] kept@[k]).server@, function_views(kept@[k].functions@)) by {
                        if k < before.len() {
                            assert(kept@[k] == before[k]);
                        } else {
                            assert(old_v[i as int] == (kept@[k].server@, function_views(kept@[k].functions@)));
                        }
                    }
                    assert forall|j: int| 0 <= j < i + 1 && (#[trigger] old_v[j]).0 != server_name@ implies exists|k: int| 0 <= k < kept@.len() && old_v[j] == ((#[trigger] kept@[k]).server@, function_views(kept@[k].functions@)) by {
                        if j < i {
                            let k = choose|k: int| 0 <= k < before.len() && old_v[j] == ((#[trigger] before[k]).server@, function_views(before[k].functions@));
                            assert(kept@[k] == before[k]);
                        } else {
                            assert(old_v[j] == (kept@[before.len() as int].server@, function_views(kept@[before.len() as int].functions@)));
                        }
                    }
                }
            }
            i = i + 1;
        }
        self.entries = kept;
        proof {
            assert forall|fs: Seq<FunctionView>| !self.holds(server_name@, fs) by {
                if self.holds(server_name@, fs) {
                    let k = choose|k: int| 0 <= k < self.entries_view().len() && #[trigger] self.entries_view()[k] == (server_name@, fs);
                    assert(self.entries@[k].server@ == server_name@);
                }
            }
            assert forall|n: Seq<char>, fs: Seq<FunctionView>| n != server_name@ implies (#[trigger] self.holds(n, fs) <==> old(self).holds(n, fs)) by {
                if self.holds(n, fs) {
                    let k = choose|k: int| 0 <= k < self.entries_view().len() && #[trigger] self.entries_view()[k] == (n, fs);
                    assert(self.entries_view()[k] == (kept@[k].server@, function_views(kept@[k].functions@)));
                    let j = choose|j: int| 0 <= j < old_v.len() && (#[trigger] old_v[j]) == ((#[trigger] kept@[k]).server@, function_views(kept@[k].functions@));
                    assert(old(self).entries_view()[j] == (n, fs));
                }
                if old(self).holds(n, fs) {
                    let j = choose|j: int| 0 <= j < old_v.len() && #[trigger] old(self).entries_view()[j] == (n, fs);
                    assert(old_v[j].0 != server_name@);
                    let k = choose|k: int| 0 <= k < kept@.len() && old_v[j] == ((#[trigger] kept@[k]).server@, function_views(kept@[k].functions@));
                    assert(self.entries_view()[k] == (n, fs));
                }
            }
        }
    }

    /// Stores the definitions `tools/list` returned for `server_name`.
    pub fn store(&mut self, server_name: &str, functions: Vec<McpFunction>)
        requires
            old(self).wf(),
        ensures
            final(self).wf(),
            final(self).holds(server_name@, function_views(functions@)),
            forall|fs: Seq<FunctionView>| #[trigger] final(self).holds(server_name@, fs) ==> fs == function_views(functions@),
            forall|n: Seq<char>, fs: Seq<FunctionView>|
                n != server_name@ ==> (#[trigger] final(self).holds(n, fs) <==> old(self).holds(n, fs)),
    {
        self.clear_function_cache_for_server(server_name);
        let ghost mid = self.entries_view();
        let ghost mid_self_holds = |n: Seq<char>, fs: Seq<FunctionView>| self.holds(n, fs);
        let ghost fv = function_views(functions@);
        let ghost before = self.entries@;
        proof {
            assert forall|k: int| 0 <= k < before.len() implies (#[trigger] before[k]).server@ != server_name@ by {
                if before[k].server@ == server_name@ {
                    assert(self.entries_view()[k] == (server_name@, function_views(before[k].functions@)));
                    assert(self.holds(server_name@, function_views(before[k].functions@)));
                }
            }
        }
        self.entries.push(CacheEntry { server: to_owned_string(server_name), functions });
        proof {
            assert(self.entries_view() =~= mid.push((server_name@, fv)));
            assert(self.entries_view()[mid.len() as int] == (server_name@, fv));
            assert forall|a: int, b: int| 0 <= a < b < self.entries@.len() implies #[trigger] self.entries@[a].server@ != #[trigger] self.entries@[b].server@ by {
                if b == before.len() {
                    assert(self.entries@[a] == before[a]);
                } else {
                    assert(self.entries@[a] == before[a] && self.entries@[b] == before[b]);
                }
            }
            assert forall|fs: Seq<FunctionView>| #[trigger] self.holds(server_name@, fs) implies fs == fv by {
                let k = choose|k: int| 0 <= k < self.entries_view().len() && #[trigger] self.entries_view()[k] == (server_name@, fs);
                if k < mid.len() {
                    assert(self.entries@[k] == before[k]);
                }
            }
            assert forall|n: Seq<char>, fs: Seq<FunctionView>| n != server_name@ implies (#[trigger] self.holds(n, fs) <==> mid_self_holds(n, fs)) by {
                if self.holds(n, fs) {
                    let k = choose|k: int| 0 <= k < self.entries_view().len() && #[trigger] self.entries_view()[k] == (n, fs);
                    assert(k < mid.len());
                    assert(mid[k] == (n, fs));
                }
                if mid_self_holds(n, fs) {
                    let k = choose|k: int| 0 <= k < mid.len() && #[trigger] mid[k] == (n, fs);
                    assert(self.entries_view()[k] == (n, fs));
                }
            }
        }
    }

    /// Forgets every server's definitions.
    pub fn clear_all_function_cache(&mut self)
        ensures
            final(self).wf(),
            forall|n: Seq<char>, fs: Seq<FunctionView>| !final(self).holds(n, fs),
    {
        self.entries = Vec::new();
        assert(self.entries_view() =~= Seq::<(Seq<char>, Seq<FunctionView>)>::empty());
    }

    /// The way to a server's definitions: the cached ones; or, for a running
    /// server (remote servers always count as running), a fetch; or else the
    /// placeholders built from its configured tool names, without starting it.
    pub fn get_server_functions_cached(&self, server: &McpServerConfig, running: bool) -> (r: CacheLookup)
        requires
            self.wf(),
        ensures
            match r {
                CacheLookup::Hit(fs) => self.holds(server@.name(), function_views(fs@)) && forall|x: Seq<FunctionView>|
                    #[trigger] self.holds(server@.name(), x) ==> x == function_views(fs@),
                CacheLookup::Fetch => (forall|fs: Seq<FunctionView>| !self.holds(server@.name(), fs))
                    && (running || server@.is_remote()),
                CacheLookup::Fallback(fs) => (forall|x: Seq<FunctionView>| !self.holds(server@.name(), x))
                    && !(running || server@.is_remote()) && function_views(fs@) == fallback_views(server@),
            },
    {
        match self.get_cached(server.name()) {
            Some(fs) => CacheLookup::Hit(fs),
            None => {
                let remote = match server {
                    McpServerConfig::Http { connection: crate::config::HttpConnection::Remote { .. }, .. } => true,
                    _ => false,
                };
                if running || remote {
                    CacheLookup::Fetch
                } else {
                    CacheLookup::Fallback(get_fallback_functions(server))
                }
            },
        }
    }
}

/// The placeholder description of a configured tool.
pub open spec fn fallback_description(tool: Seq<char>, s: ServerView) -> Seq<char> {
    "External tool '"@ + tool + "' from server '"@ + s.name() + "' "@ + if s.is_remote() {
        "(remote server)"@
    } else {
        "(server not started)"@
    }
}

/// The placeholders of a server: one per configured tool name, with an
/// empty parameter schema.
pub open spec fn fallback_views(s: ServerView) -> Seq<FunctionView> {
    s.tools().map_values(
        |t: Seq<char>| FunctionView { name: t, description: fallback_description(t, s), parameters: "{}"@ },
    )
}

/// Placeholder definitions for a server that is not running, so that its
/// tool names can be shown to the model without starting it.
pub fn get_fallback_functions(server: &McpServerConfig) -> (r: Vec<McpFunction>)
    ensures
        function_views(r@) == fallback_views(server@),
{
    let tools = server.tools();
    let remote = match server {
        McpServerConfig::Http { connection: crate::config::HttpConnection::Remote { .. }, .. } => true,
        _ => false,
    };
    let mut out: Vec<McpFunction> = Vec::new();
    let mut i: usize = 0;
    while i < tools.len()
        invariant
            i <= tools@.len(),
            strs(tools@) == server@.tools(),
            remote == server@.is_remote(),
            out@.len() == i,
            forall|k: int| 0 <= k < i ==> (#[trigger] out@[k])@ == fallback_views(server@)[k],
        decreases tools.len() - i,
    {
        let t = tools[i].as_str();
        let mut d = to_owned_string("External tool '");
        d.append(t);
        d.append("' from server '");
        d.append(server.name());
        d.append("' ");
        if remote {
            d.append("(remote server)");
        } else {
            d.append("(server not started)");
        }
        let f = McpFunction { name: tools[i].clone(), description: d, parameters: to_owned_string("{}") };
        assert(strs(tools@)[i as int] == t@);
        assert(f@ == fallback_views(server@)[i as int]);
        out.push(f);
        i = i + 1;
    }
    assert(function_views(out@) =~= fallback_views(server@));
    out
}

/// Whether the periodic health monitor is on.
pub struct HealthMonitor {
    running: bool,
}

impl HealthMonitor {
    pub closed spec fn spec_running(&self) -> bool {
        self.running
    }

    pub fn new() -> (r: Self)
        ensures
            !r.spec_running(),
    {
        HealthMonitor { running: false }
    }
}

/// The servers the health monitor watches: all but the builtin ones.
pub fn monitored_servers(servers: &Vec<McpServerConfig>) -> (r: Vec<McpServerConfig>)
    ensures
        r@.map_values(|s: McpServerConfig| s@) == servers@.map_values(|s: McpServerConfig| s@).filter(
            |s: ServerView| s.connection_type() != McpConnectionType::Builtin,
        ),
{
    let ghost all = servers@.map_values(|s: McpServerConfig| s@);
    let mut out: Vec<McpServerConfig> = Vec::new();
    let mut i: usize = 0;
    while i < servers.len()
        invariant
            i <= servers@.len(),
            all == servers@.map_values(|s: McpServerConfig| s@),
            out@.map_values(|s: McpServerConfig| s@) == all.subrange(0, i as int).filter(
                |s: ServerView| s.connection_type() != McpConnectionType::Builtin,
            ),
        decreases servers.len() - i,
    {
        proof {
            assert(all.subrange(0, i + 1).drop_last() =~= all.subrange(0, i as int));
            reveal(Seq::filter);
        }
        let ghost before = out@.map_values(|s: McpServerConfig| s@);
        if servers[i].connection_type() != McpConnectionType::Builtin {
            out.push(servers[i].clone());
            assert(out@.map_values(|s: McpServerConfig| s@) =~= before.push(all[i as int]));
        }
        i = i + 1;
    }
    assert(all.subrange(0, servers@.len() as int) =~= all);
    out
}

/// Turns the monitor on when it is off and some server needs watching;
/// true when a monitor task is to be started now.
pub fn start_health_monitor(monitor: &mut HealthMonitor, servers: &Vec<McpServerConfig>) -> (r: bool)
    ensures
        r == (!old(monitor).spec_running() && exists|k: int|
            0 <= k < servers@.len() && (#[trigger] servers@[k])@.connection_type() != McpConnectionType::Builtin),
        final(monitor).spec_running() == (old(monitor).spec_running() || r),
{
    if monitor.running {
        return false;
    }
    let mut i: usize = 0;
    while i < servers.len()
        invariant
            i <= servers@.len(),
            *monitor == *old(monitor),
            !old(monitor).spec_running(),
            forall|k: int| 0 <= k < i ==> (#[trigger] servers@[k])@.connection_type() == McpConnectionType::Builtin,
        decreases servers.len() - i,
    {
        if servers[i].connection_type() != McpConnectionType::Builtin {
            assert(servers@[i as int]@.connection_type() != McpConnectionType::Builtin);
            monitor.running = true;
            return true;
        }
        i = i + 1;
    }
    false
}

/// Turns the monitor off; its task ends at its next tick.
pub fn stop_health_monitor(monitor: &mut HealthMonitor)
    ensures
        !final(monitor).spec_running(),
{
    monitor.running = false;
}

/// Whether the monitor is on.
pub fn is_health_monitor_running(monitor: &HealthMonitor) -> (r: bool)
    ensures
        r == monitor.spec_running(),
{
    monitor.running
}

/// On exit: turns the monitor off and names the servers whose processes are
/// to be stopped (those that run as child processes), in order.
pub fn cleanup_servers(monitor: &mut HealthMonitor, servers: &Vec<McpServerConfig>) -> (r: Vec<String>)
    ensures
        !final(monitor).spec_running(),
        r@.map_values(|s: String| s@) == servers@.map_values(|s: McpServerConfig| s@).filter(
            |s: ServerView| kind_of(s) == ServerKind::Process,
        ).map_values(|s: ServerView| s.name()),
{
    stop_health_monitor(monitor);
    let ghost all = servers@.map_values(|s: McpServerConfig| s@);
    let mut out: Vec<String> = Vec::new();
    let mut i: usize = 0;
    while i < servers.len()
        invariant
            i <= servers@.len(),
            all == servers@.map_values(|s: McpServerConfig| s@),
            out@.map_values(|s: String| s@) == all.subrange(0, i as int).filter(
                |s: ServerView| kind_of(s) == ServerKind::Process,
            ).map_values(|s: ServerView| s.name()),
        decreases servers.len() - i,
    {
        let ghost f_before = all.subrange(0, i as int).filter(|s: ServerView| kind_of(s) == ServerKind::Process);
        proof {
            assert(all.subrange(0, i + 1).drop_last() =~= all.subrange(0, i as int));
            reveal(Seq::filter);
        }
        let ghost before = out@.map_values(|s: String| s@);
        if server_kind(&servers[i]) == ServerKind::Process {
            out.push(to_owned_string(servers[i].name()));
            proof {
                let f_after = all.subrange(0, i + 1).filter(|s: ServerView| kind_of(s) == ServerKind::Process);
                assert(f_after =~= f_before.push(all[i as int]));
                assert(f_after.map_values(|s: ServerView| s.name()) =~= f_before.map_values(|s: ServerView| s.name()).push(all[i as int].name()));
                assert(out@.map_values(|s: String| s@) =~= before.push(all[i as int].name()));
            }
        } else {
            proof {
                let f_after = all.subrange(0, i + 1).filter(|s: ServerView| kind_of(s) == ServerKind::Process);
                assert(f_after =~= f_before);
            }
        }
        i = i + 1;
    }
    assert(all.subrange(0, servers@.len() as int) =~= all);
    out
}


/// The patterns joined with commas.
pub open spec fn comma_joined(p: Seq<Seq<char>>) -> Seq<char>
    decreases p.len(),
{
    if p.len() == 0 {
        seq![]
    } else if p.len() == 1 {
        p[0]
    } else {
        comma_joined(p.drop_last()) + ","@ + p.last()
    }
}

/// The cache key of a builtin server's definitions under a tool filter.
pub open spec fn internal_key(server_type: Seq<char>, allowed: Seq<Seq<char>>) -> Seq<char> {
    if allowed.len() == 0 {
        server_type + "_all"@
    } else {
        server_type + "_"@ + comma_joined(allowed)
    }
}

/// The cache key of a builtin server's definitions under a tool filter:
/// `<type>_all`, or `<type>_<patterns joined by commas>`.
pub fn internal_cache_key(server_type: &str, allowed_tools: &Vec<String>) -> (r: String)
    ensures
        r@ == internal_key(server_type@, strs(allowed_tools@)),
{
    let mut key = to_owned_string(server_type);
    if allowed_tools.len() == 0 {
        key.append("_all");
        return key;
    }
    key.append("_");
    let ghost p = strs(allowed_tools@);
    let mut joined = String::new();
    let mut i: usize = 0;
    while i < allowed_tools.len()
        invariant
            i <= allowed_tools@.len(),
            p == strs(allowed_tools@),
            joined@ == comma_joined(p.subrange(0, i as int)),
        decreases allowed_tools.len() - i,
    {
        assert(p.subrange(0, i + 1).drop_last() =~= p.subrange(0, i as int));
        assert(p.subrange(0, i + 1).last() == allowed_tools@[i as int]@);
        let ghost prev = joined@;
        if i > 0 {
            joined.append(",");
        }
        joined.append(allowed_tools[i].as_str());
        if i == 0 {
            assert(joined@ =~= allowed_tools@[0]@);
        } else {
            assert(joined@ =~= prev + ","@ + allowed_tools@[i as int]@);
        }
        i = i + 1;
    }
    assert(p.subrange(0, allowed_tools@.len() as int) =~= p);
    key.append(joined.as_str());
    key
}

/// The definitions of a builtin server under a tool filter: the cached ones
/// when present, else `all_functions` filtered by the patterns, which are
/// then cached.
pub fn get_cached_internal_functions(
    cache: &mut FunctionCache,
    server_type: &str,
    allowed_tools: &Vec<String>,
    all_functions: Vec<McpFunction>,
) -> (r: Vec<McpFunction>)
    requires
        old(cache).wf(),
    ensures
        final(cache).wf(),
        final(cache).holds(internal_key(server_type@, strs(allowed_tools@)), function_views(r@)),
        forall|x: Seq<FunctionView>| #[trigger] final(cache).holds(internal_key(server_type@, strs(allowed_tools@)), x) ==> x == function_views(r@),
        forall|x: Seq<FunctionView>| #[trigger] old(cache).holds(internal_key(server_type@, strs(allowed_tools@)), x) ==> x == function_views(r@),
        forall|n: Seq<char>, fs: Seq<FunctionView>| n != internal_key(server_type@, strs(allowed_tools@)) ==> (#[trigger] final(cache).holds(n, fs) <==> old(cache).holds(n, fs)),
        (forall|fs: Seq<FunctionView>| !old(cache).holds(internal_key(server_type@, strs(allowed_tools@)), fs))
            ==> function_views(r@) == keep_allowed(function_views(all_functions@), strs(allowed_tools@)),
{
    let key = internal_cache_key(server_type, allowed_tools);
    match cache.get_cached(key.as_str()) {
        Some(fs) => fs,
        None => {
            let filtered = filter_tools_by_patterns(all_functions, allowed_tools.as_slice());
            let copy = FunctionCache::copy_functions(&filtered);
            cache.store(key.as_str(), copy);
            filtered
        },
    }
}

/// Forgets every cached builtin definition.
pub fn clear_internal_function_cache(cache: &mut FunctionCache)
    ensures
        final(cache).wf(),
        forall|n: Seq<char>, fs: Seq<FunctionView>| !final(cache).holds(n, fs),
{
    cache.clear_all_function_cache();
}


/// Whether a server can answer `tools/list` now without being started:
/// remote servers always can; others when their process is alive
/// (`process_alive`: the child runs and is not shutting down, or is busy).
pub fn is_server_running_for_cache_check(server: &McpServerConfig, process_alive: bool) -> (r: bool)
    ensures
        r == (server@.is_remote() || process_alive),
{
    match server {
        McpServerConfig::Http { connection: crate::config::HttpConnection::Remote { .. }, .. } => true,
        _ => process_alive,
    }
}


/// One health-monitor step for `server` (see [`ServerRegistry::health_tick`]);
/// when it restarts the server, the server's cached tool list is dropped so
/// that it is asked again.
pub fn monitor_server(
    registry: &mut ServerRegistry,
    cache: &mut FunctionCache,
    server: &McpServerConfig,
    alive: bool,
    now: u64,
) -> (r: HealthAction)
    requires
        old(registry).wf(),
        old(cache).wf(),
    ensures
        final(registry).wf(),
        final(cache).wf(),
        ({
            let step = tick(old(registry).record_or_fresh(server@.name()), kind_of(server@), alive, now);
            r == step.0 && final(registry).record(server@.name()) == Some(step.1)
        }),
        forall|n: Seq<char>| n != server@.name() ==> #[trigger] final(registry).record(n) == old(registry).record(n),
        r == HealthAction::Restart ==> forall|fs: Seq<FunctionView>| !final(cache).holds(server@.name(), fs),
        forall|n: Seq<char>, fs: Seq<FunctionView>|
            (r != HealthAction::Restart || n != server@.name()) ==> (#[trigger] final(cache).holds(n, fs) <==> old(cache).holds(n, fs)),
{
    let r = registry.health_tick(server, alive, now);
    if r == HealthAction::Restart {
        cache.clear_function_cache_for_server(server.name());
    }
    r
}

} // verus!
