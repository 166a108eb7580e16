use inode_vpn::config::{config_path_in, Config};
use inode_vpn::paths::join_path;
use inode_vpn::daemon::{state_file_for, NetAction, SessionCore, NET_DEBOUNCE_NANOS};
use inode_vpn::dispatch::{
    config_failed, method_not_found, method_of, parse_error, peer_allowed, request_line,
    restart_timed_out, start_failed, Method,
};
use inode_vpn::error::Error;
use inode_vpn::health::{
    checkonline_cookie_file, checkonline_url, health_interval, probe_ok,
};
use inode_vpn::netwatch::{interesting_event, interesting_macos_key};
use inode_vpn::openconnect::OcStats;
use inode_vpn::platform::Platform;
use inode_vpn::state::{SessionInfo, SessionState};

fn configured() -> Config {
    let mut c = Config::default();
    c.with_key_set("gateway.url", "vpn.example.com:2000").unwrap();
    c.with_key_set("username", "alice").unwrap();
    c
}

#[test]
fn filters_engine_internal_interfaces() {
    assert!(interesting_event("3: wlo1    inet 192.168.0.128/23"));
    assert!(interesting_event("3: wlo1: <BROADCAST,MULTICAST,UP,LOWER_UP>"));
    assert!(!interesting_event("4: tun0    inet 10.1.1.10/24"));
    assert!(!interesting_event("4: tun0: <POINTOPOINT,UP>"));
    assert!(!interesting_event("1: lo    inet 127.0.0.1/8"));
    assert!(!interesting_event(""));
}

#[test]
fn event_lines_without_interface() {
    assert!(!interesting_event("Deleted something"));
    assert!(!interesting_event("3:    "));
    assert!(!interesting_event("3: ::: inet"));
    assert!(interesting_event("  5: eth0:: <UP>  "));
    assert!(interesting_event("5: lo0 inet"));
}

#[test]
fn filters_macos_virtual_interfaces() {
    assert!(interesting_macos_key("State:/Network/Global/IPv4"));
    assert!(interesting_macos_key("State:/Network/Service/AA-BB-CC/IPv4"));
    assert!(interesting_macos_key("State:/Network/Interface/en0/Link"));
    assert!(!interesting_macos_key("State:/Network/Interface/utun5/IPv4"));
    assert!(!interesting_macos_key("State:/Network/Interface/utun5/Link"));
    assert!(!interesting_macos_key("State:/Network/Interface/lo0/IPv4"));
    assert!(!interesting_macos_key("State:/Network/Interface/awdl0/Link"));
}

#[test]
fn macos_keys_ignore_case_and_other_state() {
    assert!(interesting_macos_key("STATE:/NETWORK/GLOBAL/IPV4"));
    assert!(!interesting_macos_key("State:/Network/Global/IPv6"));
    assert!(!interesting_macos_key("State:/Network/Service/X/ppp0"));
    assert!(!interesting_macos_key("Setup:/Network/Service/X/IPv4"));
    assert!(!interesting_macos_key("State:/Network/Interface/bridge0/Link"));
}

#[test]
fn new_session_is_stopped() {
    let s = SessionCore::new(501, 20, None);
    assert_eq!(s.state, SessionState::Stopped);
    assert!(s.since.is_none());
    assert!(!s.engine_running);
    assert_eq!(s.target_uid, 501);
    let snap = s.snapshot(Platform::Linux);
    assert_eq!(snap.state, SessionState::Stopped);
    assert_eq!(snap.service.supervisor, "systemd");
    assert!(snap.service.enabled);
    assert!(!snap.service.autostart);
    assert_eq!(s.snapshot(Platform::Macos).service.supervisor, "launchd");
}

#[test]
fn since_moves_only_on_state_changes() {
    let mut s = SessionCore::new(501, 20, None);
    s.set_state(SessionState::Authenticating, None, "100".into());
    assert_eq!(s.since.as_deref(), Some("100"));
    s.set_state(SessionState::Authenticating, Some("boom".into()), "200".into());
    assert_eq!(s.since.as_deref(), Some("100"));
    assert_eq!(s.last_error.as_deref(), Some("boom"));
    s.set_state(SessionState::Connected, None, "300".into());
    assert_eq!(s.since.as_deref(), Some("300"));
    assert_eq!(s.last_error.as_deref(), Some("boom"));
}

#[test]
fn one_engine_at_a_time() {
    let mut s = SessionCore::new(501, 20, None);
    s.stop_requested = true;
    s.last_error = Some("old".into());
    assert!(s.engine_start(configured()).is_ok());
    assert!(!s.stop_requested);
    assert!(s.last_error.is_none());
    assert!(s.autostart());
    assert!(s.engine_running);
    let e = s.engine_start(configured()).unwrap_err();
    assert_eq!(e.message(), "ipc error: engine already running");
    s.mark_engine_finished();
    assert!(s.engine_start(configured()).is_ok());
}

#[test]
fn stop_request_cancels_and_ends_stopped() {
    let mut s = SessionCore::new(501, 20, None);
    assert_eq!(s.request_stop(), None);
    s.store_cmd_fd(9);
    assert_eq!(s.request_stop(), Some(9));
    assert!(s.stop_requested);
    s.engine_failed("openconnect error: mainloop exited (-5)".into(), "10".into());
    assert_eq!(s.state, SessionState::Stopped);
    let mut t = SessionCore::new(501, 20, None);
    t.engine_failed("openconnect error: authentication failed (-1)".into(), "11".into());
    assert_eq!(t.state, SessionState::Failed);
    assert_eq!(t.last_error.as_deref(), Some("openconnect error: authentication failed (-1)"));
}

#[test]
fn network_changes_are_debounced() {
    let mut s = SessionCore::new(501, 20, None);
    s.set_state(SessionState::Connected, None, "1".into());
    s.store_cmd_fd(7);
    let t0: u64 = 5_000_000_000;
    assert!(matches!(s.network_changed(t0, "20".into()), NetAction::Pause(7)));
    assert_eq!(s.state, SessionState::Reconnecting);
    assert_eq!(s.since.as_deref(), Some("20"));
    assert!(matches!(s.network_changed(t0 + NET_DEBOUNCE_NANOS - 1, "21".into()), NetAction::Ignore));
    assert_eq!(s.last_net_event, Some(t0));
    assert!(matches!(s.network_changed(t0 + NET_DEBOUNCE_NANOS, "22".into()), NetAction::Pause(7)));
    assert_eq!(s.since.as_deref(), Some("20"));
}

#[test]
fn network_change_restarts_failed_engine() {
    let mut s = SessionCore::new(501, 20, None);
    assert!(matches!(s.network_changed(1, "1".into()), NetAction::Ignore));
    s.engine_start(configured()).unwrap();
    s.set_state(SessionState::Failed, Some("gone".into()), "2".into());
    assert!(matches!(s.network_changed(3_000_000_000, "3".into()), NetAction::Ignore));
    s.mark_engine_finished();
    match s.network_changed(10_000_000_000, "4".into()) {
        NetAction::Restart(c) => assert_eq!(c.gateway.url, "vpn.example.com:2000"),
        other => panic!("expected a restart, got {other:?}"),
    }
    s.set_engine_running(true);
    assert!(matches!(s.network_changed(20_000_000_000, "5".into()), NetAction::Ignore));
    let mut r = SessionCore::new(501, 20, None);
    r.set_state(SessionState::Reconnecting, None, "3".into());
    assert!(matches!(r.network_changed(1, "6".into()), NetAction::Ignore));
}

#[test]
fn session_details_and_health() {
    let mut s = SessionCore::new(501, 20, Some("script".into()));
    let mut info = SessionInfo::default();
    info.ip = Some("10.1.1.20".into());
    s.set_connected_info("vpn.example.com:2000".into(), info);
    s.set_stats(&OcStats { tx_pkts: 1, tx_bytes: 2, rx_pkts: 3, rx_bytes: 4 });
    s.set_cookie("svpnginfo=abc".into());
    assert_eq!(s.cookie().as_deref(), Some("svpnginfo=abc"));
    s.set_health(true, "50".into());
    let snap = s.snapshot(Platform::Linux);
    assert_eq!(snap.gateway.as_deref(), Some("vpn.example.com:2000"));
    assert_eq!(snap.session.unwrap().ip.as_deref(), Some("10.1.1.20"));
    assert_eq!(snap.stats.unwrap().rx_bytes, 4);
    let h = snap.health.unwrap();
    assert!(h.checkonline_ok);
    assert_eq!(h.last_check.as_deref(), Some("50"));
    s.clear_health();
    assert!(s.cookie().is_none());
    assert!(s.health.is_none());
}

#[test]
fn state_file_sits_next_to_config() {
    assert_eq!(state_file_for("/home/a/.config/inode-vpn/config.toml"), "/home/a/.config/inode-vpn/state.json");
    assert_eq!(state_file_for("config.toml"), "state.json");
    assert_eq!(state_file_for("/"), "state.json");
    assert_eq!(state_file_for("/etc/inode/"), "/etc/state.json");
    assert_eq!(join_path("", "a"), "a");
    assert_eq!(join_path("/x/", "a"), "/x/a");
    assert_eq!(join_path("/x", "/abs"), "/abs");
    assert_eq!(config_path_in("/home/a"), "/home/a/.config/inode-vpn/config.toml");
}

#[test]
fn requests_by_method() {
    assert_eq!(method_of("ping"), Method::Ping);
    assert_eq!(method_of("status"), Method::Status);
    assert_eq!(method_of("start"), Method::Start);
    assert_eq!(method_of("stop"), Method::Stop);
    assert_eq!(method_of("restart"), Method::Restart);
    assert_eq!(method_of("subscribe"), Method::Subscribe);
    assert_eq!(method_of("Stop"), Method::Unknown);
    assert!(peer_allowed(0, 501));
    assert!(peer_allowed(501, 501));
    assert!(!peer_allowed(502, 501));
    assert_eq!(request_line("  {\"id\":1}\r\n").as_deref(), Some("{\"id\":1}"));
    assert!(request_line(" \n").is_none());
}

#[test]
fn rpc_error_answers() {
    let r = method_not_found(4, "frobnicate");
    assert_eq!(r.jsonrpc, "2.0");
    assert_eq!(r.id, 4);
    let e = r.error.unwrap();
    assert_eq!(e.code, -32601);
    assert_eq!(e.message, "method not found: frobnicate");
    let r = parse_error("expected value at line 1 column 1");
    assert_eq!(r.jsonrpc, "2.0");
    assert_eq!(r.id, 0);
    assert_eq!(r.error.unwrap().code, -32700);
    let r = restart_timed_out(5).error.unwrap();
    assert_eq!((r.code, r.message.as_str()), (-32003, "engine did not stop in time"));
    let r = start_failed(6, &Error::Ipc("engine already running".into())).error.unwrap();
    assert_eq!((r.code, r.message.as_str()), (-32001, "ipc error: engine already running"));
    let r = config_failed(7, &Error::Config("c.toml: gateway.url must not be empty".into()));
    assert_eq!(r.error.unwrap().code, -32002);
}

#[test]
fn checkonline_probe() {
    assert_eq!(checkonline_url("vpn.example.com:2000"), "https://vpn.example.com:2000/_xml/checkonline.cgi");
    assert_eq!(
        checkonline_cookie_file("vpn.example.com:2000", "svpnginfo=ctx=1").as_deref(),
        Some("vpn.example.com\tFALSE\t/\tFALSE\t0\tsvpnginfo\tctx=1\n")
    );
    assert_eq!(
        checkonline_cookie_file("vpn.example.com", "a=b").as_deref(),
        Some("vpn.example.com\tFALSE\t/\tFALSE\t0\tsvpnginfo\tb\n")
    );
    assert!(checkonline_cookie_file("vpn.example.com", "nocookie").is_none());
    let probe = inode_vpn::health::checkonline_probe("vpn.example.com:2000", "svpnginfo=secret1").unwrap();
    assert_eq!(
        probe.args,
        vec![
            "-ks",
            "--max-time",
            "5",
            "-o",
            "/dev/null",
            "-w",
            "%{http_code}",
            "-b",
            "-",
            "https://vpn.example.com:2000/_xml/checkonline.cgi",
        ]
    );
    assert!(probe.args.iter().all(|a| !a.contains("secret1")));
    assert_eq!(probe.cookie_file, "vpn.example.com\tFALSE\t/\tFALSE\t0\tsvpnginfo\tsecret1\n");
    assert!(inode_vpn::health::checkonline_probe("vpn.example.com", "nocookie").is_none());
    assert!(probe_ok(" 200\n"));
    assert!(!probe_ok("000"));
    assert!(!probe_ok("2000"));
    assert_eq!(health_interval(30), 30);
    assert_eq!(health_interval(0), 5);
    assert_eq!(health_interval(5), 5);
}

#[test]
fn status_carries_no_secrets() {
    let mut a = SessionCore::new(501, 20, None);
    let mut b = SessionCore::new(501, 20, Some("script".into()));
    let mut ca = configured();
    ca.with_key_set("password", "s3cret").unwrap();
    let mut cb = configured();
    cb.with_key_set("password", "other").unwrap();
    a.engine_start(ca).unwrap();
    b.engine_start(cb).unwrap();
    a.set_cookie("svpnginfo=one".into());
    b.set_cookie("svpnginfo=two".into());
    b.store_cmd_fd(4);
    let sa = inode_vpn::daemon::SessionCore::snapshot(&a, Platform::Linux);
    let sb = b.snapshot(Platform::Linux);
    assert_eq!(format!("{sa:?}"), format!("{sb:?}"));
    assert!(!format!("{sa:?}").contains("s3cret"));
    assert!(!format!("{sa:?}").contains("svpnginfo"));
}
