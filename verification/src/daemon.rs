//! The daemon's session decisions: what each event (a state report, a
//! network change, a stop or start request, the engine's main loop
//! returning) does to the session, and which action follows. The daemon
//! performs the actions (writing to openconnect's command pipe, spawning
//! the engine, persisting, notifying subscribers).

use vstd::prelude::*;

use crate::config::{Config, ConfigView};
use crate::openconnect::{OcStats, OC_CMD_CANCEL, OC_CMD_PAUSE};
use crate::platform::Platform;
use crate::state::{
    HealthStatus, HealthView, ServiceStatus, SessionInfo, SessionInfoView, SessionState, Stats,
    StatusSnapshot,
};
use crate::error::{error_detail, Error};
use crate::paths::{join_path, parent_of, path_join, path_parent};
use crate::text::{clone_opt, opt_view};

verus! {

/// Network changes closer together than this (in nanoseconds) count as one.
pub const NET_DEBOUNCE_NANOS: u64 = 2_000_000_000;

/// What the daemon knows of its session.
#[derive(Debug)]
pub struct SessionCore {
    pub state: SessionState,
    pub since: Option<String>,
    pub last_error: Option<String>,
    pub gateway: Option<String>,
    pub session: Option<SessionInfo>,
    pub stats: Stats,
    pub health: Option<HealthStatus>,
    /// The `svpnginfo` cookie, for the `checkonline` probe only.
    pub cookie: Option<String>,
    pub config: Option<Config>,
    pub target_uid: u32,
    pub target_gid: u32,
    pub stop_requested: bool,
    /// When the last network change was taken into account (monotonic
    /// nanoseconds).
    pub last_net_event: Option<u64>,
    /// openconnect's command pipe, while an engine has one.
    pub cmd_fd: Option<i32>,
    /// An engine thread exists.
    pub engine_running: bool,
    pub tun_script: Option<String>,
}

pub struct CoreView {
    pub state: SessionState,
    pub since: Option<Seq<char>>,
    pub last_error: Option<Seq<char>>,
    pub gateway: Option<Seq<char>>,
    pub session: Option<SessionInfoView>,
    pub stats: Stats,
    pub health: Option<HealthView>,
    pub cookie: Option<Seq<char>>,
    pub config: Option<ConfigView>,
    pub target_uid: u32,
    pub target_gid: u32,
    pub stop_requested: bool,
    pub last_net_event: Option<u64>,
    pub cmd_fd: Option<i32>,
    pub engine_running: bool,
    pub tun_script: Option<Seq<char>>,
}

impl View for SessionCore {
    type V = CoreView;

    open spec fn view(&self) -> CoreView {
        CoreView {
            state: self.state,
            since: opt_view(self.since),
            last_error: opt_view(self.last_error),
            gateway: opt_view(self.gateway),
            session: match self.session {
                Some(s) => Some(s@),
                None => None,
            },
            stats: self.stats,
            health: match self.health {
                Some(h) => Some(h@),
                None => None,
            },
            cookie: opt_view(self.cookie),
            config: match self.config {
                Some(c) => Some(c@),
                None => None,
            },
            target_uid: self.target_uid,
            target_gid: self.target_gid,
            stop_requested: self.stop_requested,
            last_net_event: self.last_net_event,
            cmd_fd: self.cmd_fd,
            engine_running: self.engine_running,
            tun_script: opt_view(self.tun_script),
        }
    }
}

/// A state report: `since` moves only when the state changes; an error, when
/// given, replaces the last one.
pub open spec fn set_state_spec(v: CoreView, s: SessionState, err: Option<Seq<char>>, now: Seq<char>) -> CoreView {
    CoreView {
        state: s,
        since: if v.state != s {
            Some(now)
        } else {
            v.since
        },
        last_error: if err is Some {
            err
        } else {
            v.last_error
        },
        ..v
    }
}

/// What a network change asks for.
#[derive(Debug)]
pub enum NetAction {
    /// Nothing (a burst, or no session to act on).
    Ignore,
    /// Pause the running engine through its command pipe: the main loop
    /// reconnects on the same cookie.
    Pause(i32),
    /// Start a fresh engine from the stored configuration.
    Restart(Config),
}

pub enum NetActionView {
    Ignore,
    Pause(i32),
    Restart(ConfigView),
}

pub open spec fn net_action_view(a: NetAction) -> NetActionView {
    match a {
        NetAction::Ignore => NetActionView::Ignore,
        NetAction::Pause(fd) => NetActionView::Pause(fd),
        NetAction::Restart(c) => NetActionView::Restart(c@),
    }
}

/// The change comes within the debounce window of the last one taken.
pub open spec fn debounced(v: CoreView, now: u64) -> bool {
    match v.last_net_event {
        Some(t) => (if now >= t {
            now - t
        } else {
            0
        }) < NET_DEBOUNCE_NANOS,
        None => false,
    }
}

/// A network change at monotonic time `now` and wall time `at`: a burst is
/// collapsed; a live session (connected or reconnecting) with a command
/// pipe is paused, and reported reconnecting, so that it reconnects; a
/// failed session without an engine is restarted from its configuration.
pub open spec fn net_change_spec(v: CoreView, now: u64, at: Seq<char>) -> (CoreView, NetActionView) {
    if debounced(v, now) {
        (v, NetActionView::Ignore)
    } else {
        let v2 = CoreView { last_net_event: Some(now), ..v };
        if v.state == SessionState::Connected || v.state == SessionState::Reconnecting {
            match v.cmd_fd {
                Some(fd) => (
                    set_state_spec(v2, SessionState::Reconnecting, None, at),
                    NetActionView::Pause(fd),
                ),
                None => (v2, NetActionView::Ignore),
            }
        } else if v.state == SessionState::Failed && !v.engine_running {
            (
                v2,
                match v.config {
                    Some(c) => NetActionView::Restart(c),
                    None => NetActionView::Ignore,
                },
            )
        } else {
            (v2, NetActionView::Ignore)
        }
    }
}

/// Starting an engine: refused while one exists; otherwise the engine is
/// counted as running, the stop flag and the last error are cleared and the
/// configuration kept.
pub open spec fn engine_start_spec(v: CoreView, c: ConfigView) -> Option<CoreView> {
    if v.engine_running {
        None
    } else {
        Some(
            CoreView {
                stop_requested: false,
                last_error: None,
                config: Some(c),
                engine_running: true,
                ..v
            },
        )
    }
}

impl SessionCore {
    pub fn new(target_uid: u32, target_gid: u32, tun_script: Option<String>) -> (r: SessionCore)
        ensures
            r.state == SessionState::Stopped,
            r.since is None && r.last_error is None && r.gateway is None && r.session is None,
            r.health is None && r.cookie is None && r.config is None,
            r.stats.tx_pkts == 0 && r.stats.tx_bytes == 0 && r.stats.rx_pkts == 0 && r.stats.rx_bytes == 0,
            r.target_uid == target_uid && r.target_gid == target_gid,
            !r.stop_requested && r.last_net_event is None && r.cmd_fd is None && !r.engine_running,
            opt_view(r.tun_script) == opt_view(tun_script),
    {
        SessionCore {
            state: SessionState::Stopped,
            since: None,
            last_error: None,
            gateway: None,
            session: None,
            stats: Stats { tx_pkts: 0, tx_bytes: 0, rx_pkts: 0, rx_bytes: 0 },
            health: None,
            cookie: None,
            config: None,
            target_uid,
            target_gid,
            stop_requested: false,
            last_net_event: None,
            cmd_fd: None,
            engine_running: false,
            tun_script,
        }
    }

    /// Records a state report at time `now`.
    pub fn set_state(&mut self, state: SessionState, last_error: Option<String>, now: String)
        ensures
            final(self)@ == set_state_spec(old(self)@, state, opt_view(last_error), now@),
    {
        if self.state != state {
            self.state = state;
            self.since = Some(now);
        }
        if last_error.is_some() {
            self.last_error = last_error;
        }
    }

    /// The engine ended with an error, displayed as `message`: the session is
    /// stopped when a stop was asked for, failed otherwise.
    pub fn engine_failed(&mut self, message: String, now: String)
        ensures
            final(self)@ == set_state_spec(
                old(self)@,
                failure_state_of(old(self)@.stop_requested),
                Some(message@),
                now@,
            ),
    {
        let state = if self.stop_requested {
            SessionState::Stopped
        } else {
            SessionState::Failed
        };
        self.set_state(state, Some(message), now);
    }

    /// Records what the tunnel was set up with.
    pub fn set_connected_info(&mut self, gateway: String, session: SessionInfo)
        ensures
            final(self)@ == (CoreView { gateway: Some(gateway@), session: Some(session@), ..old(self)@ }),
    {
        self.gateway = Some(gateway);
        self.session = Some(session);
    }

    pub fn store_cmd_fd(&mut self, fd: i32)
        ensures
            final(self)@ == (CoreView { cmd_fd: Some(fd), ..old(self)@ }),
    {
        self.cmd_fd = Some(fd);
    }

    /// The engine thread was spawned.
    pub fn set_engine_running(&mut self, running: bool)
        ensures
            final(self)@ == (CoreView { engine_running: running, ..old(self)@ }),
    {
        self.engine_running = running;
    }

    /// The engine thread is gone (it returned or panicked).
    pub fn mark_engine_finished(&mut self)
        ensures
            final(self)@ == (CoreView { cmd_fd: None, engine_running: false, ..old(self)@ }),
    {
        self.cmd_fd = None;
        self.engine_running = false;
    }

    /// A stop request: the flag is set; the command pipe, if any, gets
    /// [`OC_CMD_CANCEL`].
    pub fn request_stop(&mut self) -> (r: Option<i32>)
        ensures
            final(self)@ == request_stop_spec(old(self)@),
            r == old(self).cmd_fd,
    {
        self.stop_requested = true;
        self.cmd_fd
    }

    /// A network change at monotonic time `now` (nanoseconds) and wall time
    /// `at`.
    pub fn network_changed(&mut self, now: u64, at: String) -> (r: NetAction)
        ensures
            (final(self)@, net_action_view(r)) == net_change_spec(old(self)@, now, at@),
    {
        match self.last_net_event {
            Some(t) => {
                let elapsed = if now >= t {
                    now - t
                } else {
                    0
                };
                if elapsed < NET_DEBOUNCE_NANOS {
                    return NetAction::Ignore;
                }
            },
            None => {},
        }
        self.last_net_event = Some(now);
        if self.state == SessionState::Connected || self.state == SessionState::Reconnecting {
            match self.cmd_fd {
                Some(fd) => {
                    self.set_state(SessionState::Reconnecting, None, at);
                    NetAction::Pause(fd)
                },
                None => NetAction::Ignore,
            }
        } else if self.state == SessionState::Failed && !self.engine_running {
            match &self.config {
                Some(c) => NetAction::Restart(c.duplicate()),
                None => NetAction::Ignore,
            }
        } else {
            NetAction::Ignore
        }
    }

    /// Accepts a configuration for a new engine, unless one is running; the
    /// engine then counts as running until it is marked finished.
    pub fn engine_start(&mut self, config: Config) -> (r: Result<(), Error>)
        ensures
            match engine_start_spec(old(self)@, config@) {
                Some(v) => r is Ok && final(self)@ == v,
                None => r is Err && r->Err_0 is Ipc && error_detail(r->Err_0) == "engine already running"@
                    && final(self)@ == old(self)@,
            },
    {
        if self.engine_running {
            return Err(Error::Ipc(String::from_str("engine already running")));
        }
        self.stop_requested = false;
        self.last_error = None;
        self.config = Some(config);
        self.engine_running = true;
        Ok(())
    }

    pub fn set_cookie(&mut self, cookie: String)
        ensures
            final(self)@ == (CoreView { cookie: Some(cookie@), ..old(self)@ }),
    {
        self.cookie = Some(cookie);
    }

    /// The cookie, for the health probe.
    pub fn cookie(&self) -> (r: Option<String>)
        ensures
            opt_view(r) == self@.cookie,
    {
        clone_opt(&self.cookie)
    }

    /// The result of a `checkonline` probe at time `now`.
    pub fn set_health(&mut self, ok: bool, now: String)
        ensures
            final(self)@ == (CoreView {
                health: Some(HealthView { checkonline_ok: ok, last_check: Some(now@) }),
                ..old(self)@
            }),
    {
        self.health = Some(HealthStatus { checkonline_ok: ok, last_check: Some(now) });
    }

    /// The health probe stopped: no health, no cookie.
    pub fn clear_health(&mut self)
        ensures
            final(self)@ == (CoreView { health: None, cookie: None, ..old(self)@ }),
    {
        self.health = None;
        self.cookie = None;
    }

    /// The counters libopenconnect reported.
    pub fn set_stats(&mut self, s: &OcStats)
        ensures
            final(self)@ == (CoreView {
                stats: Stats { tx_pkts: s.tx_pkts, tx_bytes: s.tx_bytes, rx_pkts: s.rx_pkts, rx_bytes: s.rx_bytes },
                ..old(self)@
            }),
    {
        self.stats = Stats { tx_pkts: s.tx_pkts, tx_bytes: s.tx_bytes, rx_pkts: s.rx_pkts, rx_bytes: s.rx_bytes };
    }

    /// Whether the configuration asks for autostart (false without one).
    pub fn autostart(&self) -> (r: bool)
        ensures
            r == match self@.config {
                Some(c) => c.autostart,
                None => false,
            },
    {
        match &self.config {
            Some(c) => c.service.autostart,
            None => false,
        }
    }

    /// The `status --json` document.
    pub fn snapshot(&self, platform: Platform) -> (r: StatusSnapshot)
        ensures
            snapshot_view(r) == snapshot_of(self@, platform),
    {
        StatusSnapshot {
            state: self.state,
            since: clone_opt(&self.since),
            gateway: clone_opt(&self.gateway),
            session: match &self.session {
                Some(s) => Some(s.duplicate()),
                None => None,
            },
            stats: Some(self.stats),
            last_error: clone_opt(&self.last_error),
            health: match &self.health {
                Some(h) => Some(h.duplicate()),
                None => None,
            },
            service: ServiceStatus {
                supervisor: match platform {
                    Platform::Macos => String::from_str("launchd"),
                    Platform::Linux => String::from_str("systemd"),
                },
                enabled: true,
                autostart: self.autostart(),
            },
        }
    }
}

/// The state an engine that ended with an error leaves.
pub open spec fn failure_state_of(stop_requested: bool) -> SessionState {
    if stop_requested {
        SessionState::Stopped
    } else {
        SessionState::Failed
    }
}

/// The stop request as a change of the session.
pub open spec fn request_stop_spec(v: CoreView) -> CoreView {
    CoreView { stop_requested: true, ..v }
}

/// Network changes within the debounce window of one that was taken into
/// account are ignored and change nothing.
pub proof fn law_network_changes_debounced(v: CoreView, t1: u64, t2: u64, a1: Seq<char>, a2: Seq<char>)
    requires
        !debounced(v, t1),
        t1 <= t2,
        t2 - t1 < NET_DEBOUNCE_NANOS,
    ensures
        net_change_spec(net_change_spec(v, t1, a1).0, t2, a2) == (
            net_change_spec(v, t1, a1).0,
            NetActionView::Ignore,
        ),
{
}

/// A change that comes after the window has passed is taken again.
pub proof fn law_network_change_after_window(v: CoreView, t1: u64, t2: u64, a1: Seq<char>, a2: Seq<char>)
    requires
        !debounced(v, t1),
        t2 >= t1,
        t2 - t1 >= NET_DEBOUNCE_NANOS,
    ensures
        net_change_spec(net_change_spec(v, t1, a1).0, t2, a2).0.last_net_event == Some(t2),
{
}

/// Reporting the state the session is already in keeps the time it entered
/// it; reporting another state moves that time.
pub proof fn law_since_marks_state_changes(
    v: CoreView,
    s: SessionState,
    e1: Option<Seq<char>>,
    e2: Option<Seq<char>>,
    n1: Seq<char>,
    n2: Seq<char>,
)
    ensures
        set_state_spec(set_state_spec(v, s, e1, n1), s, e2, n2).since == set_state_spec(
            v,
            s,
            e1,
            n1,
        ).since,
        v.state != s ==> set_state_spec(v, s, e1, n1).since == Some(n1),
        e1 is None ==> set_state_spec(v, s, e1, n1).last_error == v.last_error,
{
}

/// At most one engine runs: once a start was accepted, further starts are
/// refused and change nothing until the engine is marked finished, after
/// which a start is accepted again.
pub proof fn law_one_engine_at_a_time(v: CoreView, c1: ConfigView, c2: ConfigView)
    requires
        engine_start_spec(v, c1) is Some,
    ensures
        ({
            let started = engine_start_spec(v, c1)->0;
            &&& engine_start_spec(started, c2) is None
            &&& engine_start_spec(CoreView { cmd_fd: None, engine_running: false, ..started }, c2) is Some
        }),
{
}

/// A stop request decides how the engine ends: whatever the main loop or a
/// failing call returns afterwards, the session ends stopped, not failed.
pub proof fn law_stop_request_ends_stopped(v: CoreView, ret: i32)
    ensures
        request_stop_spec(v).stop_requested,
        failure_state_of(request_stop_spec(v).stop_requested) == SessionState::Stopped,
        crate::engine::loop_state(request_stop_spec(v).stop_requested, ret) == Some(SessionState::Stopped),
{
}

/// Starting an engine forgets an earlier stop request and error, so a
/// later failure is reported as a failure.
pub proof fn law_start_clears_stop(v: CoreView, c: ConfigView, message: Seq<char>, now: Seq<char>)
    requires
        engine_start_spec(v, c) is Some,
    ensures
        !engine_start_spec(v, c)->0.stop_requested,
        engine_start_spec(v, c)->0.last_error is None,
        set_state_spec(
            engine_start_spec(v, c)->0,
            failure_state_of(engine_start_spec(v, c)->0.stop_requested),
            Some(message),
            now,
        ).state == SessionState::Failed,
{
}

pub open spec fn state_file_of(config_path: Seq<char>) -> Seq<char> {
    match path_parent(config_path) {
        Some(d) => path_join(d, "state.json"@),
        None => "state.json"@,
    }
}

/// Where the daemon leaves its crash-recovery breadcrumb: `state.json` next
/// to the configuration file.
pub fn state_file_for(config_path: &str) -> (r: String)
    ensures
        r@ == state_file_of(config_path@),
{
    match parent_of(config_path) {
        Some(d) => join_path(d.as_str(), "state.json"),
        None => String::from_str("state.json"),
    }
}

/// The `status --json` document as plain values.
pub struct SnapshotView {
    pub state: SessionState,
    pub since: Option<Seq<char>>,
    pub gateway: Option<Seq<char>>,
    pub session: Option<SessionInfoView>,
    pub stats: Option<Stats>,
    pub last_error: Option<Seq<char>>,
    pub health: Option<HealthView>,
    pub supervisor: Seq<char>,
    pub enabled: bool,
    pub autostart: bool,
}

pub open spec fn snapshot_view(s: StatusSnapshot) -> SnapshotView {
    SnapshotView {
        state: s.state,
        since: opt_view(s.since),
        gateway: opt_view(s.gateway),
        session: match s.session {
            Some(x) => Some(x@),
            None => None,
        },
        stats: s.stats,
        last_error: opt_view(s.last_error),
        health: match s.health {
            Some(h) => Some(h@),
            None => None,
        },
        supervisor: s.service.supervisor@,
        enabled: s.service.enabled,
        autostart: s.service.autostart,
    }
}

/// Whether the configuration asks for autostart (false without one).
pub open spec fn autostart_of(v: CoreView) -> bool {
    match v.config {
        Some(c) => c.autostart,
        None => false,
    }
}

/// What `status` reports of a session: its state and when it was entered,
/// the gateway and tunnel, the counters, the last error, the health probe,
/// and the service (`systemd` or `launchd`, enabled, autostart).
pub open spec fn snapshot_of(v: CoreView, p: Platform) -> SnapshotView {
    SnapshotView {
        state: v.state,
        since: v.since,
        gateway: v.gateway,
        session: v.session,
        stats: Some(v.stats),
        last_error: v.last_error,
        health: v.health,
        supervisor: match p {
            Platform::Macos => "launchd"@,
            Platform::Linux => "systemd"@,
        },
        enabled: true,
        autostart: autostart_of(v),
    }
}

/// The status answer carries none of the session's secrets: sessions that
/// differ only in their cookie, credentials, certificate pin, command pipe
/// or engine give the same answer.
pub proof fn law_status_hides_secrets(v1: CoreView, v2: CoreView, p: Platform)
    requires
        v1.state == v2.state,
        v1.since == v2.since,
        v1.gateway == v2.gateway,
        v1.session == v2.session,
        v1.stats == v2.stats,
        v1.last_error == v2.last_error,
        v1.health == v2.health,
        autostart_of(v1) == autostart_of(v2),
    ensures
        snapshot_of(v1, p) == snapshot_of(v2, p),
{
}

/// A network change that pauses the engine reports the session as
/// reconnecting, from the wall time of the change.
pub proof fn law_pause_reports_reconnecting(v: CoreView, now: u64, at: Seq<char>)
    requires
        net_change_spec(v, now, at).1 is Pause,
    ensures
        net_change_spec(v, now, at).0.state == SessionState::Reconnecting,
        v.state != SessionState::Reconnecting ==> net_change_spec(v, now, at).0.since == Some(at),
        v.state == SessionState::Reconnecting ==> net_change_spec(v, now, at).0.since == v.since,
{
}

} // verus!
