//! Supervision of tool-server processes: health, the restart budget and
//! cooldown, and the periodic health decision.
use vstd::prelude::*;
use crate::config::{McpConnectionType, McpServerConfig, ServerView};
use crate::text::{str_eq, to_owned_string};

verus! {

/// At most this many starts before a server is marked failed.
pub const MAX_RESTARTS: u32 = 3;

/// Seconds that must pass between two starts of one server.
pub const RESTART_COOLDOWN_SECS: u64 = 30;

/// Seconds after its last start before a failed server is reset.
pub const FAILURE_RESET_SECS: u64 = 300;

/// Liveness of a supervised server.
#[derive(Debug, Clone, Copy, PartialEq, Eq, Structural)]
pub enum ServerHealth {
    Running,
    Dead,
    Restarting,
    Failed,
}

/// Why a supervisor operation was refused.
#[derive(Debug, Clone, Copy, PartialEq, Eq, Structural)]
pub enum SupervisorError {
    /// The restart budget, the cooldown or a failed state forbids a start.
    RestartBlocked,
    /// No server of that name is registered.
    UnknownServer,
}

/// What the health monitor decided for one server on one tick.
#[derive(Debug, Clone, Copy, PartialEq, Eq, Structural)]
pub enum HealthAction {
    /// Nothing to do.
    Nothing,
    /// A start was authorized and recorded: start the server process now.
    Restart,
    /// The server stays down: restarts are spent (it is now `Failed`), or the
    /// cooldown is still running, or it cannot be started from here.
    Wait,
    /// The failure state was cleared after the reset period.
    ResetFailure,
}

/// How a server is probed and whether it can be restarted from here.
#[derive(Debug, Clone, Copy, PartialEq, Eq, Structural)]
pub enum ServerKind {
    /// In-process; always running.
    Builtin,
    /// Reached over the network; probed, never started.
    Remote,
    /// A child process of this runtime.
    Process,
}

/// Restart bookkeeping of one server. Times are seconds on a clock that the
/// record only lets move forward: each call takes `now` and uses the latest
/// time it has seen.
pub struct ServerRestartInfo {
    restart_count: u32,
    last_restart_time: Option<u64>,
    health_status: ServerHealth,
    last_health_check: Option<u64>,
    /// When the server was last marked `Failed`.
    failed_since: Option<u64>,
    clock: u64,
    /// The times of all starts so far.
    spawns: Ghost<Seq<int>>,
    /// Every start before the current budget period came more than the
    /// reset period before this time; every start in it, at or after it.
    epoch_floor: Ghost<int>,
    /// How many starts came before the last explicit reset.
    reset_index: Ghost<int>,
}

pub struct RestartInfoView {
    pub restart_count: u32,
    pub last_restart_time: Option<u64>,
    pub health_status: ServerHealth,
    pub last_health_check: Option<u64>,
    pub failed_since: Option<u64>,
    pub clock: u64,
    pub spawns: Seq<int>,
    /// How many of `spawns` came before the last explicit reset.
    pub reset_index: int,
}

impl View for ServerRestartInfo {
    type V = RestartInfoView;

    closed spec fn view(&self) -> RestartInfoView {
        RestartInfoView {
            restart_count: self.restart_count,
            last_restart_time: self.last_restart_time,
            health_status: self.health_status,
            last_health_check: self.last_health_check,
            failed_since: self.failed_since,
            clock: self.clock,
            spawns: self.spawns@,
            reset_index: self.reset_index@,
        }
    }
}

/// The later of the record's clock and `now`.
pub open spec fn effective_time(clock: u64, now: u64) -> u64 {
    if now > clock {
        now
    } else {
        clock
    }
}

/// The record of a server that was never seen.
pub open spec fn fresh_view() -> RestartInfoView {
    RestartInfoView {
        restart_count: 0,
        last_restart_time: None,
        health_status: ServerHealth::Dead,
        last_health_check: None,
        failed_since: None,
        clock: 0,
        spawns: Seq::empty(),
        reset_index: 0,
    }
}

/// A start is allowed: budget left, cooldown over, not failed.
pub open spec fn start_allowed(v: RestartInfoView, t: u64) -> bool {
    &&& v.restart_count < MAX_RESTARTS
    &&& match v.last_restart_time {
        Some(last) => t >= last + RESTART_COOLDOWN_SECS,
        None => true,
    }
    &&& v.health_status != ServerHealth::Failed
}

/// The record after a liveness probe at time `t`.
pub open spec fn probed(v: RestartInfoView, alive: bool, t: u64) -> RestartInfoView {
    RestartInfoView {
        health_status: if alive {
            ServerHealth::Running
        } else {
            ServerHealth::Dead
        },
        last_health_check: Some(t),
        clock: t,
        ..v
    }
}

/// The record after an explicit reset at time `t`.
pub open spec fn explicitly_reset(v: RestartInfoView, t: u64) -> RestartInfoView {
    RestartInfoView {
        restart_count: 0,
        health_status: ServerHealth::Dead,
        failed_since: None,
        clock: t,
        reset_index: v.spawns.len() as int,
        ..v
    }
}

/// The record after a start at time `t`.
pub open spec fn started(v: RestartInfoView, t: u64) -> RestartInfoView {
    RestartInfoView {
        restart_count: (v.restart_count + 1) as u32,
        last_restart_time: Some(t),
        health_status: ServerHealth::Restarting,
        clock: t,
        spawns: v.spawns.push(t as int),
        failed_since: None,
        ..v
    }
}

/// The reset period has passed since the server was marked `Failed`.
pub open spec fn reset_due(v: RestartInfoView, t: u64) -> bool {
    match v.failed_since {
        Some(f) => t > f + FAILURE_RESET_SECS,
        None => false,
    }
}

/// One health-monitor step: the action and the record afterwards.
pub open spec fn tick(v: RestartInfoView, kind: ServerKind, alive: bool, now: u64) -> (HealthAction, RestartInfoView) {
    let t = effective_time(v.clock, now);
    if kind == ServerKind::Builtin {
        (HealthAction::Nothing, probed(v, true, t))
    } else if v.health_status == ServerHealth::Failed {
        if reset_due(v, t) {
            (HealthAction::ResetFailure, RestartInfoView { restart_count: 0, health_status: ServerHealth::Dead, failed_since: None, clock: t, ..v })
        } else {
            (HealthAction::Wait, RestartInfoView { clock: t, ..v })
        }
    } else {
        let p = probed(v, alive, t);
        if alive {
            (HealthAction::Nothing, p)
        } else if kind == ServerKind::Remote {
            (HealthAction::Wait, p)
        } else if v.restart_count >= MAX_RESTARTS {
            (HealthAction::Wait, RestartInfoView { health_status: ServerHealth::Failed, failed_since: Some(t), ..p })
        } else if start_allowed(p, t) {
            (HealthAction::Restart, started(p, t))
        } else {
            (HealthAction::Wait, p)
        }
    }
}

/// No four starts from position `from` on fall within one reset period.
pub open spec fn spread_from(s: Seq<int>, from: int) -> bool {
    forall|i: int, j: int|
        from <= i && i + 3 <= j < s.len() ==> #[trigger] s[j] > #[trigger] s[i] + FAILURE_RESET_SECS
}

/// Restart backoff: any two starts lie at least the cooldown apart.
pub open spec fn spawns_cooled(s: Seq<int>) -> bool {
    forall|i: int, j: int| 0 <= i < j < s.len() ==> #[trigger] s[i] + RESTART_COOLDOWN_SECS <= #[trigger] s[j]
}

impl ServerRestartInfo {
    /// The record's internal consistency.
    pub closed spec fn wf(&self) -> bool {
        let s = self.spawns@;
        let n = s.len();
        let c = self.restart_count as int;
        &&& self.restart_count <= MAX_RESTARTS
        &&& c <= n
        &&& (if n == 0 {
            self.last_restart_time is None
        } else {
            self.last_restart_time == Some(s.last() as u64) && 0 <= s.last() <= u64::MAX
        })
        &&& forall|i: int| 0 <= i < n ==> #[trigger] s[i] <= s.last()
        &&& n > 0 ==> s.last() <= self.clock
        &&& 0 <= self.reset_index@ <= n - c
        &&& (match self.failed_since {
            Some(f) => f <= self.clock && (n > 0 ==> s.last() <= f),
            None => true,
        })
        &&& forall|i: int| self.reset_index@ <= i < n - c ==> #[trigger] s[i] + FAILURE_RESET_SECS < self.epoch_floor@
        &&& forall|i: int| n - c <= i < n ==> #[trigger] s[i] >= self.epoch_floor@
        &&& self.epoch_floor@ <= self.clock
        &&& spread_from(s, self.reset_index@)
        &&& spawns_cooled(s)
    }

    /// A fresh record: never started, dead, no checks yet.
    pub fn new() -> (r: Self)
        ensures
            r.wf(),
            r@ == fresh_view(),
    {
        let r = ServerRestartInfo {
            restart_count: 0,
            last_restart_time: None,
            health_status: ServerHealth::Dead,
            last_health_check: None,
            failed_since: None,
            clock: 0,
            spawns: Ghost(Seq::empty()),
            epoch_floor: Ghost(0),
            reset_index: Ghost(0),
        };
        assert(r@.spawns =~= fresh_view().spawns);
        r
    }

    pub fn restart_count(&self) -> (r: u32)
        ensures
            r == self@.restart_count,
    {
        self.restart_count
    }

    pub fn last_restart_time(&self) -> (r: Option<u64>)
        ensures
            r == self@.last_restart_time,
    {
        self.last_restart_time
    }

    pub fn health_status(&self) -> (r: ServerHealth)
        ensures
            r == self@.health_status,
    {
        self.health_status
    }

    pub fn last_health_check(&self) -> (r: Option<u64>)
        ensures
            r == self@.last_health_check,
    {
        self.last_health_check
    }

    fn observe(&mut self, now: u64)
        requires
            old(self).wf(),
        ensures
            final(self).wf(),
            final(self)@ == (RestartInfoView { clock: effective_time(old(self)@.clock, now), ..old(self)@ }),
            final(self).epoch_floor == old(self).epoch_floor,
    {
        if now > self.clock {
            self.clock = now;
        }
    }

    /// Whether a start would be allowed at `now`.
    pub fn can_start(&self, now: u64) -> (r: bool)
        ensures
            r == start_allowed(self@, effective_time(self@.clock, now)),
    {
        let t = if now > self.clock {
            now
        } else {
            self.clock
        };
        let cooled = match self.last_restart_time {
            Some(last) => last <= u64::MAX - RESTART_COOLDOWN_SECS && t >= last
                + RESTART_COOLDOWN_SECS,
            None => true,
        };
        self.restart_count < MAX_RESTARTS && cooled && self.health_status != ServerHealth::Failed
    }

    /// Checks the start rules at `now` and, where they allow it, records the
    /// start: the count goes up, the start time is kept, the server is
    /// `Restarting` until its readiness is reported.
    pub fn authorize_start(&mut self, now: u64) -> (r: Result<(), SupervisorError>)
        requires
            old(self).wf(),
        ensures
            final(self).wf(),
            ({
                let t = effective_time(old(self)@.clock, now);
                if start_allowed(old(self)@, t) {
                    &&& r is Ok
                    &&& final(self)@ == (RestartInfoView {
                        restart_count: (old(self)@.restart_count + 1) as u32,
                        last_restart_time: Some(t),
                        health_status: ServerHealth::Restarting,
                        clock: t,
                        spawns: old(self)@.spawns.push(t as int),
                        failed_since: None,
                        ..old(self)@
                    })
                } else {
                    &&& r == Err::<(), SupervisorError>(SupervisorError::RestartBlocked)
                    &&& final(self)@ == (RestartInfoView { clock: t, ..old(self)@ })
                }
            }),
    {
        self.observe(now);
        if !self.can_start(now) {
            return Err(SupervisorError::RestartBlocked);
        }
        let t = self.clock;
        let ghost s = self.spawns@;
        let ghost n = s.len();
        let ghost c = self.restart_count as int;
        proof {
            let s2 = s.push(t as int);
            assert forall|i: int, j: int| self.reset_index@ <= i && i + 3 <= j < s2.len() implies #[trigger] s2[j] > #[trigger] s2[i] + FAILURE_RESET_SECS by {
                if j == n {
                    assert(i < n - c);
                    assert(s[i] + FAILURE_RESET_SECS < self.epoch_floor@);
                } else {
                    assert(s[j] > s[i] + FAILURE_RESET_SECS);
                }
            }
        }
        self.restart_count = self.restart_count + 1;
        self.last_restart_time = Some(t);
        self.health_status = ServerHealth::Restarting;
        self.failed_since = None;
        self.spawns = Ghost(self.spawns@.push(t as int));
        proof {
            let s2 = self.spawns@;
            assert(s2.last() == t as int);
            assert forall|i: int| 0 <= i < s2.len() implies #[trigger] s2[i] <= s2.last() by {
                if i < n {
                    assert(s2[i] == s[i]);
                }
            }
            assert forall|i: int, j: int| 0 <= i < j < s2.len() implies #[trigger] s2[i] + RESTART_COOLDOWN_SECS <= #[trigger] s2[j] by {
                if j == n {
                    assert(s2[i] == s[i]);
                    assert(s[i] <= s.last());
                } else {
                    assert(s2[i] == s[i] && s2[j] == s[j]);
                }
            }
            assert forall|i: int| self.reset_index@ <= i < s2.len() - self.restart_count implies #[trigger] s2[i] + FAILURE_RESET_SECS < self.epoch_floor@ by {
                assert(s2[i] == s[i]);
            }
            assert forall|i: int| s2.len() - self.restart_count <= i < s2.len() implies #[trigger] s2[i] >= self.epoch_floor@ by {
                if i < n {
                    assert(s2[i] == s[i]);
                }
            }
        }
        Ok(())
    }

    /// Records the outcome of a liveness probe at `now`.
    pub fn record_probe(&mut self, alive: bool, now: u64)
        requires
            old(self).wf(),
        ensures
            final(self).wf(),
            final(self)@ == (RestartInfoView {
                health_status: if alive {
                    ServerHealth::Running
                } else {
                    ServerHealth::Dead
                },
                last_health_check: Some(effective_time(old(self)@.clock, now)),
                clock: effective_time(old(self)@.clock, now),
                ..old(self)@
            }),
    {
        self.observe(now);
        self.health_status = if alive {
            ServerHealth::Running
        } else {
            ServerHealth::Dead
        };
        self.last_health_check = Some(self.clock);
    }

    /// Clears a failure once the reset period has passed since the server
    /// was marked `Failed`: it becomes `Dead` with a fresh restart budget.
    /// Earlier, or when it was never marked, the record is left as it is and
    /// `false` comes back.
    pub fn reset_failure_state(&mut self, now: u64) -> (r: bool)
        requires
            old(self).wf(),
        ensures
            final(self).wf(),
            ({
                let t = effective_time(old(self)@.clock, now);
                let due = reset_due(old(self)@, t);
                if due {
                    &&& r
                    &&& final(self)@ == (RestartInfoView {
                        restart_count: 0,
                        health_status: ServerHealth::Dead,
                        failed_since: None,
                        clock: t,
                        ..old(self)@
                    })
                } else {
                    &&& !r
                    &&& final(self)@ == (RestartInfoView { clock: t, ..old(self)@ })
                }
            }),
    {
        self.observe(now);
        let due = match self.failed_since {
            Some(f) => f <= u64::MAX - FAILURE_RESET_SECS && self.clock > f + FAILURE_RESET_SECS,
            None => false,
        };
        if !due {
            return false;
        }
        let ghost s = self.spawns@;
        self.restart_count = 0;
        self.health_status = ServerHealth::Dead;
        self.failed_since = None;
        self.epoch_floor = Ghost(self.clock as int);
        proof {
            assert forall|i: int| self.reset_index@ <= i < s.len() implies #[trigger] s[i] + FAILURE_RESET_SECS < self.epoch_floor@ by {
                assert(s[i] <= s.last());
            }
        }
        true
    }

    /// The operator's explicit reset: the server becomes `Dead` with a fresh
    /// restart budget, whatever its state. (Starts before it no longer count
    /// towards the restart bound.)
    pub fn reset_explicitly(&mut self, now: u64)
        requires
            old(self).wf(),
        ensures
            final(self).wf(),
            final(self)@ == explicitly_reset(old(self)@, effective_time(old(self)@.clock, now)),
    {
        self.observe(now);
        self.restart_count = 0;
        self.health_status = ServerHealth::Dead;
        self.failed_since = None;
        self.reset_index = Ghost(self.spawns@.len() as int);
    }

    /// One health-monitor step for this server at `now`. `alive` is the probe
    /// result (process liveness, or the HTTP check for a remote server).
    /// A failed server is reset once the reset period has passed and is not
    /// probed before; a dead process is restarted where the start rules allow
    /// it, and marked `Failed` once its restarts are spent.
    pub fn health_tick(&mut self, kind: ServerKind, alive: bool, now: u64) -> (r: HealthAction)
        requires
            old(self).wf(),
        ensures
            final(self).wf(),
            (r, final(self)@) == tick(old(self)@, kind, alive, now),
    {
        if kind == ServerKind::Builtin {
            self.record_probe(true, now);
            return HealthAction::Nothing;
        }
        if self.health_status == ServerHealth::Failed {
            if self.reset_failure_state(now) {
                return HealthAction::ResetFailure;
            }
            return HealthAction::Wait;
        }
        self.record_probe(alive, now);
        if alive {
            return HealthAction::Nothing;
        }
        if kind == ServerKind::Remote {
            return HealthAction::Wait;
        }
        if self.restart_count >= MAX_RESTARTS {
            self.health_status = ServerHealth::Failed;
            self.failed_since = Some(self.clock);
            return HealthAction::Wait;
        }
        match self.authorize_start(now) {
            Ok(()) => HealthAction::Restart,
            Err(_) => HealthAction::Wait,
        }
    }
}

/// Whatever calls are made on a well-formed record, its starts since the
/// last explicit reset stay spread out: no reset period (five minutes) holds
/// more than three of them.
pub proof fn lemma_restart_window(info: &ServerRestartInfo)
    requires
        info.wf(),
    ensures
        spread_from(info@.spawns, info@.reset_index),
{
}

/// Whatever calls are made on a well-formed record, no start follows
/// another within the cooldown.
pub proof fn lemma_restart_backoff(info: &ServerRestartInfo)
    requires
        info.wf(),
    ensures
        spawns_cooled(info@.spawns),
{
}


impl Clone for ServerRestartInfo {
    fn clone(&self) -> (r: Self)
        ensures
            r == *self,
    {
        ServerRestartInfo {
            restart_count: self.restart_count,
            last_restart_time: self.last_restart_time,
            health_status: self.health_status,
            last_health_check: self.last_health_check,
            failed_since: self.failed_since,
            clock: self.clock,
            spawns: Ghost(self.spawns@),
            epoch_floor: Ghost(self.epoch_floor@),
            reset_index: Ghost(self.reset_index@),
        }
    }
}

/// How the health monitor probes and restarts a configured server.
pub open spec fn kind_of(s: ServerView) -> ServerKind {
    match s.connection_type() {
        McpConnectionType::Builtin => ServerKind::Builtin,
        _ => if s.is_remote() {
            ServerKind::Remote
        } else {
            ServerKind::Process
        },
    }
}

/// How the health monitor probes and restarts a configured server.
pub fn server_kind(server: &McpServerConfig) -> (r: ServerKind)
    ensures
        r == kind_of(server@),
{
    match server {
        McpServerConfig::Builtin { .. } => ServerKind::Builtin,
        McpServerConfig::Http { connection: crate::config::HttpConnection::Remote { .. }, .. } =>
            ServerKind::Remote,
        _ => ServerKind::Process,
    }
}

/// The restart record of one named server.
pub struct ServerEntry {
    pub name: String,
    pub info: ServerRestartInfo,
}

/// One line of the status report.
#[derive(Debug, PartialEq)]
pub struct ServerStatus {
    pub name: String,
    pub health: ServerHealth,
    pub restart_count: u32,
    pub last_restart_time: Option<u64>,
}

/// The supervised servers, at most one record per name.
pub struct ServerRegistry {
    entries: Vec<ServerEntry>,
}

impl ServerRegistry {
    /// Each registered name with its record, in registration order.
    pub closed spec fn entry_views(&self) -> Seq<(Seq<char>, RestartInfoView)> {
        self.entries@.map_values(|e: ServerEntry| (e.name@, e.info@))
    }

    /// The record of `name`, if registered.
    pub closed spec fn record(&self, name: Seq<char>) -> Option<RestartInfoView> {
        if exists|k: int| 0 <= k < self.entries@.len() && #[trigger] self.entries@[k].name@ == name {
            let k = choose|k: int| 0 <= k < self.entries@.len() && #[trigger] self.entries@[k].name@ == name;
            Some(self.entries@[k].info@)
        } else {
            None
        }
    }

    /// The record of `name`, or a fresh one when it has none.
    pub open spec fn record_or_fresh(&self, name: Seq<char>) -> RestartInfoView {
        match self.record(name) {
            Some(v) => v,
            None => fresh_view(),
        }
    }

    pub closed spec fn wf(&self) -> bool {
        &&& forall|i: int, j: int|
            0 <= i < j < self.entries@.len() ==> #[trigger] self.entries@[i].name@ != #[trigger] self.entries@[j].name@
        &&& forall|i: int| 0 <= i < self.entries@.len() ==> (#[trigger] self.entries@[i]).info.wf()
    }

    /// An empty registry.
    pub fn new() -> (r: Self)
        ensures
            r.wf(),
            forall|n: Seq<char>| r.record(n) is None,
    {
        ServerRegistry { entries: Vec::new() }
    }

    proof fn lemma_record_at(&self, k: int)
        requires
            self.wf(),
            0 <= k < self.entries@.len(),
        ensures
            self.record(self.entries@[k].name@) == Some(self.entries@[k].info@),
    {
        let name = self.entries@[k].name@;
        assert(self.entries@[k].name@ == name);
        let j = choose|j: int| 0 <= j < self.entries@.len() && #[trigger] self.entries@[j].name@ == name;
        if j != k {
            if j < k {
                assert(self.entries@[j].name@ != self.entries@[k].name@);
            } else {
                assert(self.entries@[k].name@ != self.entries@[j].name@);
            }
        }
    }

    proof fn lemma_record_frame(a: &ServerRegistry, b: &ServerRegistry, n: Seq<char>)
        requires
            a.wf(),
            b.wf(),
            a.entries@.len() <= b.entries@.len(),
            forall|i: int| 0 <= i < a.entries@.len() ==> (#[trigger] b.entries@[i]).name@ == a.entries@[i].name@,
            forall|i: int| a.entries@.len() <= i < b.entries@.len() ==> (#[trigger] b.entries@[i]).name@ != n,
            forall|i: int|
                0 <= i < a.entries@.len() && (#[trigger] a.entries@[i]).name@ == n ==> b.entries@[i].info@
                    == a.entries@[i].info@,
        ensures
            b.record(n) == a.record(n),
    {
        if exists|k: int| 0 <= k < a.entries@.len() && #[trigger] a.entries@[k].name@ == n {
            let k = choose|k: int| 0 <= k < a.entries@.len() && #[trigger] a.entries@[k].name@ == n;
            a.lemma_record_at(k);
            assert(b.entries@[k].name@ == n);
            b.lemma_record_at(k);
        } else {
            if exists|k: int| 0 <= k < b.entries@.len() && #[trigger] b.entries@[k].name@ == n {
                let k = choose|k: int| 0 <= k < b.entries@.len() && #[trigger] b.entries@[k].name@ == n;
                if k < a.entries@.len() {
                    assert(a.entries@[k].name@ == n);
                }
            }
        }
    }

    fn position(&self, name: &str) -> (r: Option<usize>)
        requires
            self.wf(),
        ensures
            match r {
                Some(k) => k < self.entries@.len() && self.entries@[k as int].name@ == name@
                    && self.record(name@) == Some(self.entries@[k as int].info@),
                None => self.record(name@) is None,
            },
    {
        let mut i: usize = 0;
        while i < self.entries.len()
            invariant
                self.wf(),
                i <= self.entries@.len(),
                forall|k: int| 0 <= k < i ==> #[trigger] self.entries@[k].name@ != name@,
            decreases self.entries.len() - i,
        {
            if str_eq(self.entries[i].name.as_str(), name) {
                proof {
                    self.lemma_record_at(i as int);
                }
                return Some(i);
            }
            i = i + 1;
        }
        None
    }

    /// The position of `name`, adding a fresh record when it is missing.
    fn ensure_entry(&mut self, name: &str) -> (r: usize)
        requires
            old(self).wf(),
        ensures
            final(self).wf(),
            r < final(self).entries@.len(),
            final(self).entries@[r as int].name@ == name@,
            final(self).record(name@) == Some(final(self).entries@[r as int].info@),
            old(self).record(name@) is Some ==> old(self).record(name@) == Some(final(self).entries@[r as int].info@),
            old(self).record(name@) is None ==> final(self).entries@[r as int].info@ == fresh_view(),
            forall|n: Seq<char>| n != name@ ==> #[trigger] final(self).record(n) == old(self).record(n),
            match old(self).record(name@) {
                Some(v) => final(self).entries@ == old(self).entries@,
                None => final(self).entries@.len() == old(self).entries@.len() + 1
                    && final(self).entries@.drop_last() == old(self).entries@
                    && final(self).entries@.last().info@ == fresh_view(),
            },
    {
        match self.position(name) {
            Some(k) => {
                proof {
                    self.lemma_record_at(k as int);
                }
                k
            },
            None => {
                let ghost before = self.entries@;
                self.entries.push(ServerEntry { name: to_owned_string(name), info: ServerRestartInfo::new() });
                assert(self.entries@.drop_last() =~= before);
                assert forall|i: int, j: int| 0 <= i < j < self.entries@.len() implies #[trigger] self.entries@[i].name@ != #[trigger] self.entries@[j].name@ by {
                    if j == before.len() {
                        assert(self.entries@[i] == before[i]);
                    }
                }
                proof {
                    self.lemma_record_at(before.len() as int);
                    assert forall|n: Seq<char>| n != name@ implies #[trigger] self.record(n) == old(self).record(n) by {
                        Self::lemma_record_frame(old(self), self, n);
                    }
                }
                self.entries.len() - 1
            },
        }
    }

    /// Replaces the record at position `k`, keeping its name.
    fn replace_info(&mut self, k: usize, info: ServerRestartInfo)
        requires
            old(self).wf(),
            k < old(self).entries@.len(),
            info.wf(),
        ensures
            final(self).wf(),
            final(self).entries@.len() == old(self).entries@.len(),
            forall|i: int| 0 <= i < old(self).entries@.len() ==> #[trigger] final(self).entries@[i].name@ == old(self).entries@[i].name@,
            forall|i: int| 0 <= i < old(self).entries@.len() && i != k ==> #[trigger] final(self).entries@[i].info == old(self).entries@[i].info,
            final(self).entries@[k as int].info == info,
            final(self).record(old(self).entries@[k as int].name@) == Some(info@),
            forall|n: Seq<char>| n != old(self).entries@[k as int].name@ ==> #[trigger] final(self).record(n) == old(self).record(n),
    {
        let name = self.entries[k].name.clone();
        self.entries.set(k, ServerEntry { name, info });
        proof {
            self.lemma_record_at(k as int);
            assert forall|n: Seq<char>| n != old(self).entries@[k as int].name@ implies #[trigger] self.record(n) == old(self).record(n) by {
                Self::lemma_record_frame(old(self), self, n);
            }
        }
    }

    /// Whether `name` has a record.
    pub fn has_record(&self, server_name: &str) -> (r: bool)
        requires
            self.wf(),
        ensures
            r == self.record(server_name@) is Some,
    {
        self.position(server_name).is_some()
    }

    /// The health of `name`; `Dead` when it has no record.
    pub fn get_server_health_status(&self, server_name: &str) -> (r: ServerHealth)
        requires
            self.wf(),
        ensures
            r == match self.record(server_name@) {
                Some(v) => v.health_status,
                None => ServerHealth::Dead,
            },
    {
        match self.position(server_name) {
            Some(k) => self.entries[k].info.health_status(),
            None => ServerHealth::Dead,
        }
    }

    /// A copy of the record of `name`; a fresh one when it has none.
    pub fn get_server_restart_info(&self, server_name: &str) -> (r: ServerRestartInfo)
        requires
            self.wf(),
        ensures
            r.wf(),
            match self.record(server_name@) {
                Some(v) => r@ == v,
                None => r@.restart_count == 0 && r@.spawns.len() == 0 && r@.health_status
                    == ServerHealth::Dead,
            },
    {
        match self.position(server_name) {
            Some(k) => self.entries[k].info.clone(),
            None => ServerRestartInfo::new(),
        }
    }

    /// Asks for a start of `name` at `now` (see [`ServerRestartInfo::authorize_start`]).
    pub fn authorize_start(&mut self, server_name: &str, now: u64) -> (r: Result<(), SupervisorError>)
        requires
            old(self).wf(),
        ensures
            final(self).wf(),
            ({
                let before = old(self).record_or_fresh(server_name@);
                let t = effective_time(before.clock, now);
                &&& r is Ok <==> start_allowed(before, t)
                &&& final(self).record(server_name@) == Some(
                    if start_allowed(before, t) {
                        started(before, t)
                    } else {
                        RestartInfoView { clock: t, ..before }
                    },
                )
            }),
            forall|n: Seq<char>| n != server_name@ ==> #[trigger] final(self).record(n) == old(self).record(n),
    {
        let k = self.ensure_entry(server_name);
        proof {
            if old(self).record(server_name@) is Some {
                old(self).lemma_record_at(k as int);
            }
        }
        let mut info = self.entries[k].info.clone();
        let r = info.authorize_start(now);
        self.replace_info(k, info);
        r
    }

    /// Records a liveness probe of `name`.
    pub fn record_probe(&mut self, server_name: &str, alive: bool, now: u64)
        requires
            old(self).wf(),
        ensures
            final(self).wf(),
            ({
                let before = old(self).record_or_fresh(server_name@);
                final(self).record(server_name@) == Some(probed(before, alive, effective_time(before.clock, now)))
            }),
            forall|n: Seq<char>| n != server_name@ ==> #[trigger] final(self).record(n) == old(self).record(n),
    {
        let k = self.ensure_entry(server_name);
        let mut info = self.entries[k].info.clone();
        info.record_probe(alive, now);
        self.replace_info(k, info);
    }

    /// The operator's explicit reset of `name`: whatever its state, it
    /// becomes `Dead` with a fresh restart budget.
    pub fn reset_server_failure_state(&mut self, server_name: &str, now: u64) -> (r: Result<(), SupervisorError>)
        requires
            old(self).wf(),
        ensures
            final(self).wf(),
            old(self).record(server_name@) is None <==> r == Err::<(), SupervisorError>(
                SupervisorError::UnknownServer,
            ),
            old(self).record(server_name@) is None ==> forall|n: Seq<char>| #[trigger] final(self).record(n) == old(self).record(n),
            old(self).record(server_name@) is Some ==> {
                let before = old(self).record(server_name@)->0;
                &&& r is Ok
                &&& final(self).record(server_name@) == Some(explicitly_reset(before, effective_time(before.clock, now)))
            },
            forall|n: Seq<char>| n != server_name@ ==> #[trigger] final(self).record(n) == old(self).record(n),
    {
        match self.position(server_name) {
            Some(k) => {
                let mut info = self.entries[k].info.clone();
                info.reset_explicitly(now);
                self.replace_info(k, info);
                Ok(())
            },
            None => Err(SupervisorError::UnknownServer),
        }
    }

    /// One health-monitor step for a configured server (see
    /// [`ServerRestartInfo::health_tick`]).
    pub fn health_tick(&mut self, server: &McpServerConfig, alive: bool, now: u64) -> (r: HealthAction)
        requires
            old(self).wf(),
        ensures
            final(self).wf(),
            ({
                let step = tick(old(self).record_or_fresh(server@.name()), kind_of(server@), alive, now);
                r == step.0 && final(self).record(server@.name()) == Some(step.1)
            }),
            forall|n: Seq<char>| n != server@.name() ==> #[trigger] final(self).record(n) == old(self).record(n),
    {
        let kind = server_kind(server);
        let k = self.ensure_entry(server.name());
        let mut info = self.entries[k].info.clone();
        let r = info.health_tick(kind, alive, now);
        self.replace_info(k, info);
        r
    }

    /// Whether a server can take calls now, recording what was seen. Builtin
    /// and remote servers count as running; a process server is running when
    /// `process_alive` (the child is alive and not shutting down).
    pub fn is_server_already_running_with_config(
        &mut self,
        server: &McpServerConfig,
        process_alive: bool,
        now: u64,
    ) -> (r: bool)
        requires
            old(self).wf(),
        ensures
            final(self).wf(),
            r == (kind_of(server@) != ServerKind::Process || process_alive),
            ({
                let before = old(self).record_or_fresh(server@.name());
                final(self).record(server@.name()) == Some(probed(before, r, effective_time(before.clock, now)))
            }),
            forall|n: Seq<char>| n != server@.name() ==> #[trigger] final(self).record(n) == old(self).record(n),
    {
        let running = match server_kind(server) {
            ServerKind::Process => process_alive,
            _ => true,
        };
        self.record_probe(server.name(), running, now);
        running
    }

    /// As [`Self::is_server_already_running_with_config`] for a server known
    /// by name only: the builtin `developer` and `filesystem` servers always
    /// run; any other runs when `process_alive`.
    pub fn is_server_already_running(&mut self, server_name: &str, process_alive: bool, now: u64) -> (r: bool)
        requires
            old(self).wf(),
        ensures
            final(self).wf(),
            r == (server_name@ == "developer"@ || server_name@ == "filesystem"@ || process_alive),
            ({
                let before = old(self).record_or_fresh(server_name@);
                final(self).record(server_name@) == Some(probed(before, r, effective_time(before.clock, now)))
            }),
            forall|n: Seq<char>| n != server_name@ ==> #[trigger] final(self).record(n) == old(self).record(n),
    {
        let running = str_eq(server_name, "developer") || str_eq(server_name, "filesystem")
            || process_alive;
        self.record_probe(server_name, running, now);
        running
    }

    /// Health, restart count and last start of every registered server.
    pub fn get_server_status_report(&self) -> (r: Vec<ServerStatus>)
        requires
            self.wf(),
        ensures
            r@.len() == self.entry_views().len(),
            forall|k: int|
                0 <= k < r@.len() ==> {
                    &&& (#[trigger] r@[k]).name@ == self.entry_views()[k].0
                    &&& self.record(r@[k].name@) == Some(self.entry_views()[k].1)
                    &&& r@[k].health == self.entry_views()[k].1.health_status
                    &&& r@[k].restart_count == self.entry_views()[k].1.restart_count
                    &&& r@[k].last_restart_time == self.entry_views()[k].1.last_restart_time
                },
    {
        let mut out: Vec<ServerStatus> = Vec::new();
        let mut i: usize = 0;
        while i < self.entries.len()
            invariant
                self.wf(),
                i <= self.entries@.len(),
                out@.len() == i,
                forall|k: int|
                    0 <= k < i ==> {
                        &&& (#[trigger] out@[k]).name@ == self.entries@[k].name@
                        &&& self.record(out@[k].name@) == Some(self.entries@[k].info@)
                        &&& out@[k].health == self.entries@[k].info@.health_status
                        &&& out@[k].restart_count == self.entries@[k].info@.restart_count
                        &&& out@[k].last_restart_time == self.entries@[k].info@.last_restart_time
                    },
            decreases self.entries.len() - i,
        {
            let e = &self.entries[i];
            proof {
                self.lemma_record_at(i as int);
            }
            out.push(
                ServerStatus {
                    name: e.name.clone(),
                    health: e.info.health_status(),
                    restart_count: e.info.restart_count(),
                    last_restart_time: e.info.last_restart_time(),
                },
            );
            i = i + 1;
        }
        out
    }
}


/// Restart bound for every supervised server: in a registry, no server's
/// record holds four starts since its last explicit reset within one reset
/// period (five minutes).
pub proof fn lemma_registry_restart_window(reg: &ServerRegistry, name: Seq<char>)
    requires
        reg.wf(),
        reg.record(name) is Some,
    ensures
        spread_from(reg.record(name)->0.spawns, reg.record(name)->0.reset_index),
{
    reg.lemma_record_spread(name);
}

impl ServerRegistry {
    proof fn lemma_record_spread(&self, name: Seq<char>)
        requires
            self.wf(),
            self.record(name) is Some,
        ensures
            spread_from(self.record(name)->0.spawns, self.record(name)->0.reset_index),
    {
        let k = choose|k: int| 0 <= k < self.entries@.len() && #[trigger] self.entries@[k].name@ == name;
        self.lemma_record_at(k);
        lemma_restart_window(&self.entries@[k].info);
    }
}

} // verus!
