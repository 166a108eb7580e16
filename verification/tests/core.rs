use inode_vpn::config::{check_mode, parse_cidr_list, Config, DnsMode, Keepalive};
use inode_vpn::error::Error;
use inode_vpn::ipc::{frame_line, line_read, socket_path, Request, Response};
use inode_vpn::platform::Platform;
use inode_vpn::redact::Redactor;
use inode_vpn::state::{SessionState, StatusSnapshot};

#[test]
fn with_key_set_whitelists_keys() {
    let mut cfg = Config::default();
    cfg.with_key_set("gateway.url", "vpn.example.com:2000").unwrap();
    cfg.with_key_set("username", "alice").unwrap();
    cfg.with_key_set("password", "s3cret").unwrap();
    cfg.with_key_set("keepalive", "45").unwrap();
    cfg.with_key_set("dns", "ignore").unwrap();
    cfg.with_key_set("preserve_cidrs", "192.168.0.0/23,10.0.0.0/8").unwrap();
    assert_eq!(cfg.gateway.url, "vpn.example.com:2000");
    assert_eq!(cfg.credentials.password, "s3cret");
    assert_eq!(cfg.network.keepalive, Keepalive::Seconds(45));
    assert_eq!(cfg.network.dns, DnsMode::Ignore);
    assert_eq!(cfg.network.preserve_cidrs, vec!["192.168.0.0/23", "10.0.0.0/8"]);
    assert!(cfg.with_key_set("nonsense", "x").is_err());
}

#[test]
fn with_key_set_errors_leave_config_unchanged() {
    let mut cfg = Config::default();
    cfg.with_key_set("keepalive", "auto").unwrap();
    assert_eq!(cfg.network.keepalive, Keepalive::Auto("auto".to_string()));
    let before = cfg.clone();
    let e = cfg.with_key_set("keepalive", "soon").unwrap_err();
    assert_eq!(e.message(), "config error: keepalive must be 'auto' or seconds: soon");
    let e = cfg.with_key_set("dns", "public").unwrap_err();
    assert_eq!(e.message(), "config error: dns must be server|ignore: public");
    let e = cfg.with_key_set("nonsense", "x").unwrap_err();
    assert_eq!(e.message(), "config error: unsupported config key: nonsense");
    assert_eq!(cfg, before);
    cfg.with_key_set("keepalive", "+0").unwrap();
    assert_eq!(cfg.network.keepalive, Keepalive::Seconds(0));
    cfg.with_key_set("servercert", "pin-sha256:abc").unwrap();
    assert_eq!(cfg.gateway.servercert, "pin-sha256:abc");
}

#[test]
fn cidr_list_trims_and_drops_empty_parts() {
    assert_eq!(
        parse_cidr_list(" 10.0.0.0/8 ;; 192.168.0.0/23 , "),
        vec!["10.0.0.0/8", "192.168.0.0/23"]
    );
    assert!(parse_cidr_list("").is_empty());
}

#[test]
fn default_config_values() {
    let cfg = Config::default();
    assert_eq!(cfg.gateway.url, "");
    assert_eq!(cfg.network.keepalive, Keepalive::Auto("auto".to_string()));
    assert_eq!(cfg.network.dns, DnsMode::Server);
    assert!(cfg.service.autostart);
    assert_eq!(cfg.service.restart_delay, 10);
    assert_eq!(Keepalive::Auto("auto".into()).seconds(30), 30);
    assert_eq!(Keepalive::Seconds(0).seconds(30), 0);
}

#[test]
fn redacted_view_hides_password_and_pin() {
    let mut a = Config::default();
    a.with_key_set("gateway.url", "vpn.example.com:2000").unwrap();
    a.with_key_set("username", "alice").unwrap();
    a.with_key_set("password", "s3cret").unwrap();
    a.with_key_set("servercert", "pin-sha256:abc").unwrap();
    let mut b = a.clone();
    b.with_key_set("password", "other").unwrap();
    b.with_key_set("servercert", "pin-sha256:xyz").unwrap();
    let ra = a.redacted();
    assert_eq!(ra, b.redacted());
    assert!(ra.servercert_present);
    assert_eq!(ra.username, "alice");
    assert_eq!(ra.gateway_url, "vpn.example.com:2000");
    assert!(!Config::default().redacted().servercert_present);
}

#[test]
fn migrates_legacy_auth_text() {
    let raw = "username=alice\ngateway=vpn.example.com:2000\npassword=s3cret\nservercert=pin-sha256:abc\nping_target=10.0.0.1\n";
    let cfg = Config::from_legacy_auth(raw, "/home/a/.auth").unwrap();
    assert_eq!(cfg.gateway.url, "vpn.example.com:2000");
    assert_eq!(cfg.credentials.password, "s3cret");
    assert_eq!(cfg.credentials.username, "alice");
    assert_eq!(cfg.gateway.servercert, "pin-sha256:abc");
    assert_eq!(cfg.network.keepalive, Keepalive::Auto("auto".to_string()));
    assert!(cfg.validate_loaded("/home/a/config.toml").is_ok());
}

#[test]
fn legacy_auth_comments_blank_lines_and_last_value() {
    let raw = "# old file\n\n  username = bob \ngateway=a:1\ngateway=b:2\n";
    let cfg = Config::from_legacy_auth(raw, "x.auth").unwrap();
    assert_eq!(cfg.credentials.username, "bob");
    assert_eq!(cfg.gateway.url, "b:2");
    assert_eq!(cfg.credentials.password, "");
}

#[test]
fn legacy_auth_errors() {
    let e = Config::from_legacy_auth("username=a\nnot a pair\n", "x.auth").unwrap_err();
    assert_eq!(e.message(), "config error: invalid line in x.auth: \"not a pair\"");
    let e = Config::from_legacy_auth("username=a\n", "x.auth").unwrap_err();
    assert_eq!(e.message(), "config error: x.auth is missing gateway/username");
}

#[test]
fn loaded_config_needs_gateway() {
    let cfg = Config::default();
    let e = cfg.validate_loaded("c.toml").unwrap_err();
    assert_eq!(e.message(), "config error: c.toml: gateway.url must not be empty");
}

#[test]
fn rejects_group_or_world_access() {
    assert!(check_mode(0o600, "c.toml").is_ok());
    assert!(check_mode(0o100600, "c.toml").is_ok());
    let e = check_mode(0o644, "c.toml").unwrap_err();
    assert_eq!(
        e.message(),
        "config error: c.toml has insecure permissions; run: chmod 600 c.toml"
    );
    assert!(check_mode(0o640, "c.toml").is_err());
    assert!(check_mode(0o601, "c.toml").is_err());
}

#[test]
fn socket_path_platform_shape() {
    for platform in [Platform::Linux, Platform::Macos] {
        let p = socket_path(platform, 501);
        assert!(p.ends_with("501/daemon.sock"));
        assert!(p.starts_with("/run") || p.starts_with("/var/run"));
    }
    assert_eq!(socket_path(Platform::Linux, 0), "/run/inode-vpn/0/daemon.sock");
    assert_eq!(socket_path(Platform::Macos, 501), "/var/run/inode-vpn/501/daemon.sock");
}

#[test]
fn rpc_messages_carry_id_and_method() {
    let req = Request::new(7, "status");
    assert_eq!(req.jsonrpc, "2.0");
    assert_eq!(req.id, 7);
    assert_eq!(req.method, "status");
    assert!(req.params.is_null());
    let ok = Response::ok(7, serde_json::Value::Bool(true));
    assert_eq!(ok.result, Some(serde_json::Value::Bool(true)));
    assert!(ok.error.is_none());
    let err = Response::err(8, -32601, "method not found: x".to_string());
    assert_eq!(err.id, 8);
    assert!(err.result.is_none());
    let e = err.error.unwrap();
    assert_eq!(e.code, -32601);
    assert_eq!(e.message, "method not found: x");
}

#[test]
fn lines_are_newline_framed() {
    assert_eq!(frame_line(b"{}".to_vec()), b"{}\n".to_vec());
    assert_eq!(line_read(3, "{}\n".to_string()).unwrap(), "{}\n");
    let e = line_read(0, String::new()).unwrap_err();
    assert_eq!(e.message(), "ipc error: connection closed");
}

#[test]
fn redacts_password_and_cookie() {
    let r = Redactor::new(vec![
        "Tianyi@123wise".into(),
        "svpnginfo=ctxid@abc+uid@def".into(),
    ]);
    assert_eq!(
        r.redact("login failed for Tianyi@123wise cookie svpnginfo=ctxid@abc+uid@def"),
        "login failed for <redacted> cookie <redacted>"
    );
}

#[test]
fn empty_secret_is_ignored() {
    let r = Redactor::new(vec!["".into(), "x".into()]);
    assert_eq!(r.redact("axb"), "a<redacted>b");
}

#[test]
fn longer_secret_wins_over_its_prefix() {
    let mut r = Redactor::default();
    r.add("abc".into());
    r.add("abcdef".into());
    r.add("".into());
    assert_eq!(r.redact("xabcdefy abc"), "x<redacted>y <redacted>");
    let once = r.redact("abcdef abc");
    assert_eq!(r.redact(&once), once);
    assert_eq!(r.redact("clean text"), "clean text");
}

#[test]
fn exit_codes_match_architecture() {
    assert_eq!(SessionState::Connected.exit_code(), 0);
    assert_eq!(SessionState::Failed.exit_code(), 1);
    assert_eq!(SessionState::Stopped.exit_code(), 3);
    assert_eq!(SessionState::Connecting.exit_code(), 3);
}

#[test]
fn state_names_and_terminal_states() {
    assert_eq!(SessionState::Reconnecting.name(), "Reconnecting");
    assert_eq!(SessionState::Authenticating.name(), "Authenticating");
    assert!(SessionState::Stopped.is_terminal());
    assert!(SessionState::Failed.is_terminal());
    assert!(!SessionState::Connected.is_terminal());
    assert_eq!(SessionState::Reconnecting.exit_code(), 3);
    assert_eq!(SessionState::default(), SessionState::Stopped);
    let s = StatusSnapshot::default();
    assert_eq!(s.service.supervisor, "none");
    assert!(s.stats.is_none());
}

#[test]
fn error_messages_by_kind() {
    assert_eq!(Error::Config("a".into()).message(), "config error: a");
    assert_eq!(Error::Ipc("b".into()).message(), "ipc error: b");
    assert_eq!(Error::OpenConnect("c".into()).message(), "openconnect error: c");
    assert_eq!(Error::Route("d".into()).message(), "route setup failed: d");
    let io = Error::Io(std::io::Error::new(std::io::ErrorKind::Other, "disk gone"));
    assert_eq!(io.message(), "io error: disk gone");
}

#[test]
fn migrated_config_loads_again() {
    let cfg = Config::from_legacy_auth("gateway =  vpn.example.com:2000 \nusername=alice\n", "a.auth").unwrap();
    assert_eq!(cfg.gateway.url, "vpn.example.com:2000");
    assert!(cfg.validate_loaded("c.toml").is_ok());
}

#[test]
fn secrets_sharing_marker_letters_are_removed() {
    let r = Redactor::new(vec!["tear".into(), "d<x".into()]);
    assert_eq!(r.redact("a tear, teartear"), "a <redacted>, <redacted><redacted>");
    let once = r.redact("tear");
    assert_eq!(r.redact(&once), once);
}

#[test]
fn adding_a_secret_twice_changes_nothing() {
    let mut r = Redactor::default();
    r.add("abc".into());
    let once = r.clone();
    r.add("abc".into());
    assert_eq!(format!("{r:?}"), format!("{once:?}"));
    r.add("".into());
    assert_eq!(format!("{r:?}"), format!("{once:?}"));
    assert_eq!(r.redact("xabcx"), "x<redacted>x");
}
