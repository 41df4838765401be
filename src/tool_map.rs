//! The tool map: which server answers each tool name. Built once per role
//! from the servers in configuration order; the first server that offers a
//! tool wins it.
use vstd::prelude::*;
use crate::config::{McpServerConfig, ServerView, server_views};
use crate::patterns::{allowed_by, is_tool_allowed_by_patterns};
use crate::text::str_eq;
use crate::tools::{FunctionView, McpFunction, function_views};

verus! {

/// One entry of the map: a tool name and the server that answers it.
pub struct ToolRoute {
    pub tool: String,
    pub server: McpServerConfig,
}

/// The routing table. Before initialization it answers no tool.
pub struct ToolMap {
    routes: Vec<ToolRoute>,
    initialized: bool,
}

pub struct ToolMapView {
    pub routes: Seq<(Seq<char>, ServerView)>,
    pub initialized: bool,
}

impl View for ToolRoute {
    type V = (Seq<char>, ServerView);

    open spec fn view(&self) -> (Seq<char>, ServerView) {
        (self.tool@, self.server@)
    }
}

impl View for ToolMap {
    type V = ToolMapView;

    closed spec fn view(&self) -> ToolMapView {
        ToolMapView {
            routes: route_views(self.routes@),
            initialized: self.initialized,
        }
    }
}

pub open spec fn route_views(v: Seq<ToolRoute>) -> Seq<(Seq<char>, ServerView)> {
    v.map_values(|r: ToolRoute| r@)
}

/// The server of the first entry for tool `t`.
pub open spec fn route_in(e: Seq<(Seq<char>, ServerView)>, t: Seq<char>) -> Option<ServerView>
    decreases e.len(),
{
    if e.len() == 0 {
        None
    } else {
        match route_in(e.drop_last(), t) {
            Some(s) => Some(s),
            None => if e.last().0 == t {
                Some(e.last().1)
            } else {
                None
            },
        }
    }
}

/// Server `s`, having discovered the functions `fs`, offers tool `t`: one of
/// them is named `t` and the server's allowed-tool patterns admit it.
pub open spec fn provides(s: ServerView, fs: Seq<FunctionView>, t: Seq<char>) -> bool {
    allowed_by(t, s.tools()) && exists|k: int| 0 <= k < fs.len() && (#[trigger] fs[k]).name == t
}

/// The first server, in configuration order, that offers tool `t`.
pub open spec fn first_provider(
    ss: Seq<ServerView>,
    fss: Seq<Seq<FunctionView>>,
    t: Seq<char>,
) -> Option<ServerView>
    decreases ss.len(),
{
    if ss.len() == 0 || fss.len() != ss.len() {
        None
    } else {
        match first_provider(ss.drop_last(), fss.drop_last(), t) {
            Some(s) => Some(s),
            None => if provides(ss.last(), fss.last(), t) {
                Some(ss.last())
            } else {
                None
            },
        }
    }
}

/// The functions each server discovered, as views.
pub open spec fn discovered_views(d: Seq<Vec<McpFunction>>) -> Seq<Seq<FunctionView>> {
    d.map_values(|v: Vec<McpFunction>| function_views(v@))
}

/// Where the server at position `i` offers `t` and none before it does, the
/// tool goes to that server: configuration order decides, first one wins.
pub proof fn lemma_first_wins(ss: Seq<ServerView>, fss: Seq<Seq<FunctionView>>, t: Seq<char>, i: int)
    requires
        fss.len() == ss.len(),
        0 <= i < ss.len(),
        provides(ss[i], fss[i], t),
        forall|j: int| 0 <= j < i ==> !provides(ss[j], fss[j], t),
    ensures
        first_provider(ss, fss, t) == Some(ss[i]),
    decreases ss.len(),
{
    if i == ss.len() - 1 {
        lemma_none_before(ss.drop_last(), fss.drop_last(), t);
    } else {
        lemma_first_wins(ss.drop_last(), fss.drop_last(), t, i);
    }
}

proof fn lemma_none_before(ss: Seq<ServerView>, fss: Seq<Seq<FunctionView>>, t: Seq<char>)
    requires
        fss.len() == ss.len(),
        forall|j: int| 0 <= j < ss.len() ==> !provides(ss[j], fss[j], t),
    ensures
        first_provider(ss, fss, t) is None,
    decreases ss.len(),
{
    if ss.len() > 0 {
        lemma_none_before(ss.drop_last(), fss.drop_last(), t);
    }
}

proof fn lemma_route_first(e: Seq<(Seq<char>, ServerView)>, t: Seq<char>, k: int)
    requires
        0 <= k <= e.len(),
        forall|j: int| 0 <= j < k ==> e[j].0 != t,
    ensures
        k < e.len() && e[k].0 == t ==> route_in(e, t) == Some(e[k].1),
        k == e.len() ==> route_in(e, t) is None,
    decreases e.len(),
{
    if e.len() > 0 {
        if k < e.len() && e[k].0 == t {
            if k < e.len() - 1 {
                lemma_route_first(e.drop_last(), t, k);
            } else {
                lemma_route_first(e.drop_last(), t, k);
            }
        } else if k == e.len() {
            lemma_route_first(e.drop_last(), t, k - 1);
        }
    }
}

fn find_route(routes: &Vec<ToolRoute>, t: &str) -> (r: Option<usize>)
    ensures
        match r {
            Some(k) => k < routes@.len() && route_in(route_views(routes@), t@)
                == Some(routes@[k as int].server@) && routes@[k as int].tool@ == t@,
            None => route_in(route_views(routes@), t@) is None,
        },
{
    let ghost e = route_views(routes@);
    let mut i: usize = 0;
    while i < routes.len()
        invariant
            i <= routes@.len(),
            e == route_views(routes@),
            forall|j: int| 0 <= j < i ==> e[j].0 != t@,
        decreases routes.len() - i,
    {
        if str_eq(routes[i].tool.as_str(), t) {
            proof {
                lemma_route_first(e, t@, i as int);
            }
            return Some(i);
        }
        i = i + 1;
    }
    proof {
        lemma_route_first(e, t@, i as int);
    }
    None
}

/// The routing table for `servers`, where `discovered[i]` lists the
/// functions that server `i` reported.
pub fn build_tool_server_map(
    servers: &Vec<McpServerConfig>,
    discovered: &Vec<Vec<McpFunction>>,
) -> (r: Vec<ToolRoute>)
    requires
        discovered@.len() == servers@.len(),
    ensures
        forall|t: Seq<char>|
            route_in(route_views(r@), t) == first_provider(
                server_views(servers@),
                discovered_views(discovered@),
                t,
            ),
{
    let ghost ss = server_views(servers@);
    let ghost fss = discovered_views(discovered@);
    let mut routes: Vec<ToolRoute> = Vec::new();
    let mut i: usize = 0;
    while i < servers.len()
        invariant
            i <= servers@.len(),
            discovered@.len() == servers@.len(),
            ss == server_views(servers@),
            fss == discovered_views(discovered@),
            forall|t: Seq<char>|
                route_in(route_views(routes@), t) == first_provider(
                    ss.subrange(0, i as int),
                    fss.subrange(0, i as int),
                    t,
                ),
        decreases servers.len() - i,
    {
        let server = &servers[i];
        let fs = &discovered[i];
        let ghost before = route_views(routes@);
        assert(ss.subrange(0, i + 1).drop_last() =~= ss.subrange(0, i as int));
        assert(fss.subrange(0, i + 1).drop_last() =~= fss.subrange(0, i as int));
        assert(ss.subrange(0, i + 1).last() == server@);
        assert(fss.subrange(0, i + 1).last() == function_views(fs@));
        let mut j: usize = 0;
        while j < fs.len()
            invariant
                j <= fs@.len(),
                i < servers@.len(),
                server == &servers@[i as int],
                fs == &discovered@[i as int],
                forall|t: Seq<char>|
                    route_in(route_views(routes@), t) == match route_in(before, t) {
                        Some(s) => Some(s),
                        None => if provides(server@, function_views(fs@).subrange(0, j as int), t) {
                            Some(server@)
                        } else {
                            None
                        },
                    },
            decreases fs.len() - j,
        {
            let name = fs[j].name.as_str();
            let ghost prev = route_views(routes@);
            let ghost fv = function_views(fs@);
            assert forall|t: Seq<char>| provides(server@, fv.subrange(0, j + 1), t) == (provides(server@, fv.subrange(0, j as int), t) || (t == name@ && allowed_by(t, server@.tools()))) by {
                if provides(server@, fv.subrange(0, j + 1), t) {
                    let k = choose|k: int| 0 <= k < j + 1 && (#[trigger] fv.subrange(0, j + 1)[k]).name == t;
                    if k < j {
                        assert(fv.subrange(0, j as int)[k] == fv.subrange(0, j + 1)[k]);
                    }
                }
                if provides(server@, fv.subrange(0, j as int), t) {
                    let k = choose|k: int| 0 <= k < j && (#[trigger] fv.subrange(0, j as int)[k]).name == t;
                    assert(fv.subrange(0, j + 1)[k] == fv.subrange(0, j as int)[k]);
                }
                if t == name@ && allowed_by(t, server@.tools()) {
                    assert(fv.subrange(0, j + 1)[j as int].name == t);
                }
            }
            if is_tool_allowed_by_patterns(name, server.tools().as_slice()) {
                match find_route(&routes, name) {
                    Some(_) => {},
                    None => {
                        let route = ToolRoute { tool: fs[j].name.clone(), server: server.clone() };
                        assert(route@ == (name@, server@));
                        routes.push(route);
                        assert(route_views(routes@).drop_last() =~= prev);
                        assert(route_views(routes@).last() == (name@, server@));
                        assert forall|t: Seq<char>| route_in(route_views(routes@), t) == (match route_in(prev, t) {
                            Some(s) => Some(s),
                            None => if t == name@ { Some(server@) } else { None },
                        }) by {
                            assert(route_views(routes@).len() > 0);
                        }
                    },
                }
            }
            j = j + 1;
        }
        assert(function_views(fs@).subrange(0, fs@.len() as int) =~= function_views(fs@));
        i = i + 1;
    }
    assert(ss.subrange(0, servers@.len() as int) =~= ss);
    assert(fss.subrange(0, servers@.len() as int) =~= fss);
    routes
}


impl ToolMap {
    /// An empty, uninitialized map.
    pub fn new() -> (r: Self)
        ensures
            !r@.initialized,
            r@.routes.len() == 0,
    {
        let r = ToolMap { routes: Vec::new(), initialized: false };
        assert(r@.routes =~= Seq::<(Seq<char>, ServerView)>::empty());
        r
    }
}

/// Builds the map from the configured servers (in order) and the functions
/// each of them reported, and marks it ready.
pub fn initialize_tool_map(
    map: &mut ToolMap,
    servers: &Vec<McpServerConfig>,
    discovered: &Vec<Vec<McpFunction>>,
)
    requires
        discovered@.len() == servers@.len(),
    ensures
        final(map)@.initialized,
        forall|t: Seq<char>|
            route_in(final(map)@.routes, t) == first_provider(
                server_views(servers@),
                discovered_views(discovered@),
                t,
            ),
{
    let routes = build_tool_server_map(servers, discovered);
    map.routes = routes;
    map.initialized = true;
}

/// The server that answers `tool_name`; none before initialization.
pub fn get_server_for_tool(map: &ToolMap, tool_name: &str) -> (r: Option<McpServerConfig>)
    ensures
        match r {
            Some(s) => map@.initialized && route_in(map@.routes, tool_name@) == Some(s@),
            None => !map@.initialized || route_in(map@.routes, tool_name@) is None,
        },
{
    if !map.initialized {
        return None;
    }
    match find_route(&map.routes, tool_name) {
        Some(k) => Some(map.routes[k].server.clone()),
        None => None,
    }
}

/// The name of the server that answers `tool_name`.
pub fn get_tool_server_name(map: &ToolMap, tool_name: &str) -> (r: Option<String>)
    ensures
        match r {
            Some(n) => map@.initialized && route_in(map@.routes, tool_name@) is Some
                && n@ == route_in(map@.routes, tool_name@)->0.name(),
            None => !map@.initialized || route_in(map@.routes, tool_name@) is None,
        },
{
    match get_server_for_tool(map, tool_name) {
        Some(s) => Some(crate::text::to_owned_string(s.name())),
        None => None,
    }
}

/// Whether the map has been built.
pub fn is_initialized(map: &ToolMap) -> (r: bool)
    ensures
        r == map@.initialized,
{
    map.initialized
}

/// The names of all routed tools, in insertion order; none before
/// initialization.
pub fn get_all_tool_names(map: &ToolMap) -> (r: Vec<String>)
    ensures
        map@.initialized ==> r@.map_values(|s: String| s@) == map@.routes.map_values(
            |e: (Seq<char>, ServerView)| e.0,
        ),
        !map@.initialized ==> r@.len() == 0,
{
    let mut out: Vec<String> = Vec::new();
    if !map.initialized {
        return out;
    }
    let mut i: usize = 0;
    while i < map.routes.len()
        invariant
            i <= map.routes@.len(),
            map@.routes == route_views(map.routes@),
            out@.len() == i,
            forall|k: int| 0 <= k < i ==> (#[trigger] out@[k])@ == map.routes@[k].tool@,
        decreases map.routes.len() - i,
    {
        out.push(map.routes[i].tool.clone());
        i = i + 1;
    }
    assert(out@.map_values(|s: String| s@) =~= map@.routes.map_values(
        |e: (Seq<char>, ServerView)| e.0,
    ));
    out
}

} // verus!
