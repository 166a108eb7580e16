//! The daemon's session state machine and the `status --json` snapshot.

use vstd::prelude::*;

use crate::text::{clone_opt, clone_strings, opt_view, views};

verus! {

/// Where a VPN session stands.
#[derive(Debug, Clone, Copy, PartialEq, Eq, Structural)]
pub enum SessionState {
    /// No active session and no automatic-reconnect target.
    Stopped,
    /// Obtaining the `svpnginfo` cookie (TLS + login flow).
    Authenticating,
    /// `NET_EXTEND` in progress; tunnel parameters not confirmed yet.
    Connecting,
    /// Tunnel, tun device, routes and DNS are fully configured.
    Connected,
    /// Link lost; attempting same-cookie reconnect.
    Reconnecting,
    /// Authentication failed, timeout expired, or reconnect gave up.
    Failed,
}

/// The CLI exit code for a state: 0 when connected, 1 when failed, 3
/// otherwise.
pub open spec fn exit_code_of(s: SessionState) -> i32 {
    match s {
        SessionState::Connected => 0,
        SessionState::Failed => 1,
        _ => 3,
    }
}

impl SessionState {
    pub fn exit_code(self) -> (r: i32)
        ensures
            r == exit_code_of(self),
    {
        match self {
            SessionState::Connected => 0,
            SessionState::Failed => 1,
            _ => 3,
        }
    }

    /// A session in this state is over: it was stopped, or it failed.
    pub fn is_terminal(self) -> (r: bool)
        ensures
            r == (self == SessionState::Stopped || self == SessionState::Failed),
    {
        match self {
            SessionState::Stopped | SessionState::Failed => true,
            _ => false,
        }
    }

    /// The state's name as the CLI shows it.
    pub fn name(self) -> (r: String)
        ensures
            r@ == state_name(self),
    {
        match self {
            SessionState::Stopped => String::from_str("Stopped"),
            SessionState::Authenticating => String::from_str("Authenticating"),
            SessionState::Connecting => String::from_str("Connecting"),
            SessionState::Connected => String::from_str("Connected"),
            SessionState::Reconnecting => String::from_str("Reconnecting"),
            SessionState::Failed => String::from_str("Failed"),
        }
    }
}

pub open spec fn state_name(s: SessionState) -> Seq<char> {
    match s {
        SessionState::Stopped => "Stopped"@,
        SessionState::Authenticating => "Authenticating"@,
        SessionState::Connecting => "Connecting"@,
        SessionState::Connected => "Connected"@,
        SessionState::Reconnecting => "Reconnecting"@,
        SessionState::Failed => "Failed"@,
    }
}

impl Default for SessionState {
    fn default() -> (r: SessionState)
        ensures
            r == SessionState::Stopped,
    {
        SessionState::Stopped
    }
}

/// The result of the last `checkonline.cgi` probe.
#[derive(Debug, Clone)]
pub struct HealthStatus {
    pub checkonline_ok: bool,
    pub last_check: Option<String>,
}

impl Default for HealthStatus {
    fn default() -> (r: HealthStatus)
        ensures
            !r.checkonline_ok,
            r.last_check is None,
    {
        HealthStatus { checkonline_ok: false, last_check: None }
    }
}

/// Tunnel parameters of the current session.
#[derive(Debug, Clone)]
pub struct SessionInfo {
    pub ip: Option<String>,
    pub mtu: Option<u32>,
    pub routes: Vec<String>,
    pub dns: Vec<String>,
    pub keepalive: Option<u64>,
}

impl Default for SessionInfo {
    fn default() -> (r: SessionInfo)
        ensures
            r.ip is None,
            r.mtu is None,
            r.routes@.len() == 0,
            r.dns@.len() == 0,
            r.keepalive is None,
    {
        SessionInfo { ip: None, mtu: None, routes: Vec::new(), dns: Vec::new(), keepalive: None }
    }
}

/// Packet and byte counters of the tunnel.
#[derive(Debug, Clone, Copy)]
pub struct Stats {
    pub tx_pkts: u64,
    pub tx_bytes: u64,
    pub rx_pkts: u64,
    pub rx_bytes: u64,
}

impl Default for Stats {
    fn default() -> (r: Stats)
        ensures
            r.tx_pkts == 0 && r.tx_bytes == 0 && r.rx_pkts == 0 && r.rx_bytes == 0,
    {
        Stats { tx_pkts: 0, tx_bytes: 0, rx_pkts: 0, rx_bytes: 0 }
    }
}

/// How the daemon is supervised.
#[derive(Debug, Clone)]
pub struct ServiceStatus {
    pub supervisor: String,
    pub enabled: bool,
    pub autostart: bool,
}

impl Default for ServiceStatus {
    fn default() -> (r: ServiceStatus)
        ensures
            r.supervisor@ == "none"@,
            !r.enabled,
            !r.autostart,
    {
        ServiceStatus { supervisor: String::from_str("none"), enabled: false, autostart: false }
    }
}

/// The `status --json` document.
#[derive(Debug, Clone)]
pub struct StatusSnapshot {
    pub state: SessionState,
    pub since: Option<String>,
    pub gateway: Option<String>,
    pub session: Option<SessionInfo>,
    pub stats: Option<Stats>,
    pub last_error: Option<String>,
    pub health: Option<HealthStatus>,
    pub service: ServiceStatus,
}

impl Default for StatusSnapshot {
    fn default() -> (r: StatusSnapshot)
        ensures
            r.state == SessionState::Stopped,
            r.since is None,
            r.gateway is None,
            r.session is None,
            r.stats is None,
            r.last_error is None,
            r.health is None,
            r.service.supervisor@ == "none"@,
            !r.service.enabled,
            !r.service.autostart,
    {
        StatusSnapshot {
            state: SessionState::Stopped,
            since: None,
            gateway: None,
            session: None,
            stats: None,
            last_error: None,
            health: None,
            service: ServiceStatus::default(),
        }
    }
}


pub struct SessionInfoView {
    pub ip: Option<Seq<char>>,
    pub mtu: Option<u32>,
    pub routes: Seq<Seq<char>>,
    pub dns: Seq<Seq<char>>,
    pub keepalive: Option<u64>,
}

impl View for SessionInfo {
    type V = SessionInfoView;

    open spec fn view(&self) -> SessionInfoView {
        SessionInfoView {
            ip: opt_view(self.ip),
            mtu: self.mtu,
            routes: views(self.routes@),
            dns: views(self.dns@),
            keepalive: self.keepalive,
        }
    }
}

impl SessionInfo {
    pub fn duplicate(&self) -> (r: SessionInfo)
        ensures
            r@ == self@,
    {
        SessionInfo {
            ip: clone_opt(&self.ip),
            mtu: self.mtu,
            routes: clone_strings(&self.routes),
            dns: clone_strings(&self.dns),
            keepalive: self.keepalive,
        }
    }
}

pub struct HealthView {
    pub checkonline_ok: bool,
    pub last_check: Option<Seq<char>>,
}

impl View for HealthStatus {
    type V = HealthView;

    open spec fn view(&self) -> HealthView {
        HealthView { checkonline_ok: self.checkonline_ok, last_check: opt_view(self.last_check) }
    }
}

impl HealthStatus {
    pub fn duplicate(&self) -> (r: HealthStatus)
        ensures
            r@ == self@,
    {
        HealthStatus { checkonline_ok: self.checkonline_ok, last_check: clone_opt(&self.last_check) }
    }
}
} // verus!
