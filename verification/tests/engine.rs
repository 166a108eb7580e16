use inode_vpn::config::{Config, DnsMode};
use inode_vpn::engine::{
    check_call, check_engine_strings, cstring_check, join_with_commas, mainloop_outcome,
    routectl_env, session_from_ip_info, signed_decimal_string, EngineCall, LoopOutcome,
};
use inode_vpn::openconnect::{
    auth_field, cert_verdict, log_level, AuthField, CertVerdict, H3cFrame, LogLevel, TYPE_IPV4,
};
use inode_vpn::plan::{PlanVars, RoutePlan};

#[test]
fn keepalive_wire_format_matches_capture() {
    assert_eq!(H3cFrame::new_keepalive().to_wire(), vec![0x02, 0x00, 0x00, 0x00]);
}

#[test]
fn ipv4_wire_format_matches_capture() {
    // Probe captured on the wire: 01 00 | 00 27 | 45 00 ...
    let frame = H3cFrame::new_ipv4(vec![0x45, 0x00]);
    let wire = frame.to_wire();
    assert_eq!(&wire[..4], &[0x01, 0x00, 0x00, 0x02]);
    assert_eq!(&wire[4..], &[0x45, 0x00]);
}

#[test]
fn wire_length_is_big_endian_and_wraps() {
    let frame = H3cFrame::new_ipv4(vec![0u8; 0x0127]);
    assert_eq!(frame.frame_type, TYPE_IPV4);
    let wire = frame.to_wire();
    assert_eq!(wire.len(), 0x0127 + 4);
    assert_eq!(&wire[..4], &[0x01, 0x00, 0x01, 0x27]);
    let big = H3cFrame::new_ipv4(vec![7u8; 65537]).to_wire();
    assert_eq!(&big[..4], &[0x01, 0x00, 0x00, 0x01]);
    assert_eq!(big.len(), 65541);
}

#[test]
fn signed_codes_in_decimal() {
    assert_eq!(signed_decimal_string(0), "0");
    assert_eq!(signed_decimal_string(-5), "-5");
    assert_eq!(signed_decimal_string(i32::MIN), "-2147483648");
    assert_eq!(signed_decimal_string(i32::MAX), "2147483647");
}

#[test]
fn nul_characters_cannot_reach_openconnect() {
    assert!(cstring_check("alice").is_ok());
    let e = cstring_check("al\0ice").unwrap_err();
    assert_eq!(e.message(), "openconnect error: string contains NUL");
    let mut cfg = Config::default();
    cfg.with_key_set("username", "alice").unwrap();
    assert!(check_engine_strings(&cfg, &None).is_ok());
    assert!(check_engine_strings(&cfg, &Some("routectl".into())).is_ok());
    assert!(check_engine_strings(&cfg, &Some("bad\0".into())).is_err());
    cfg.with_key_set("password", "p\0").unwrap();
    assert!(check_engine_strings(&cfg, &None).is_err());
}

#[test]
fn call_return_codes() {
    assert!(check_call(EngineCall::InitSsl, 0).is_ok());
    assert_eq!(
        check_call(EngineCall::InitSsl, -1).unwrap_err().message(),
        "openconnect error: openconnect_init_ssl failed (-1)"
    );
    assert_eq!(
        check_call(EngineCall::SetProtocol, 2).unwrap_err().message(),
        "openconnect error: openconnect_set_protocol failed (2)"
    );
    assert_eq!(
        check_call(EngineCall::ParseUrl, -22).unwrap_err().message(),
        "openconnect error: openconnect_parse_url failed (-22)"
    );
    assert_eq!(
        check_call(EngineCall::ObtainCookie, -13).unwrap_err().message(),
        "openconnect error: authentication failed (-13)"
    );
    assert_eq!(
        check_call(EngineCall::MakeCstpConnection, 1).unwrap_err().message(),
        "openconnect error: NET_EXTEND failed (1)"
    );
    assert_eq!(
        check_call(EngineCall::TunSetup, -19).unwrap_err().message(),
        "openconnect error: tun setup failed (-19)"
    );
    assert!(check_call(EngineCall::SetupCmdPipe, 7).is_ok());
    assert!(check_call(EngineCall::SetupCmdPipe, 0).is_ok());
    assert_eq!(
        check_call(EngineCall::SetupCmdPipe, -1).unwrap_err().message(),
        "openconnect error: openconnect_setup_cmd_pipe failed"
    );
}

#[test]
fn mainloop_returns() {
    assert!(matches!(mainloop_outcome(true, 0), LoopOutcome::Stopped));
    assert!(matches!(mainloop_outcome(true, -5), LoopOutcome::Stopped));
    assert!(matches!(mainloop_outcome(false, 0), LoopOutcome::Reconnect));
    match mainloop_outcome(false, -104) {
        LoopOutcome::Failed(e) => assert_eq!(e.message(), "openconnect error: mainloop exited (-104)"),
        _ => panic!("expected a failure"),
    }
}

#[test]
fn session_from_openconnect_ip_info() {
    let s = session_from_ip_info(
        Some("10.1.1.20".into()),
        1400,
        vec![Some("223.5.5.5".into()), None, Some("223.6.6.6".into())],
    );
    assert_eq!(s.ip.as_deref(), Some("10.1.1.20"));
    assert_eq!(s.mtu, Some(1400));
    assert_eq!(s.dns, vec!["223.5.5.5", "223.6.6.6"]);
    assert!(s.routes.is_empty());
    assert_eq!(s.keepalive, Some(30));
    let s = session_from_ip_info(None, 0, vec![None, None, None]);
    assert!(s.ip.is_none());
    assert!(s.mtu.is_none());
    assert!(s.dns.is_empty());
}

#[test]
fn routectl_environment() {
    let mut cfg = Config::default();
    let env = routectl_env(&cfg.network, true);
    assert_eq!(env, vec![("INODE_DNS_MODE".to_string(), "server".to_string())]);
    cfg.with_key_set("dns", "ignore").unwrap();
    cfg.with_key_set("preserve_cidrs", "192.168.0.0/23;10.0.0.0/8").unwrap();
    let env = routectl_env(&cfg.network, false);
    assert_eq!(
        env,
        vec![
            ("INODE_DNS_MODE".to_string(), "ignore".to_string()),
            ("INODE_PRESERVE_CIDRS".to_string(), "192.168.0.0/23,10.0.0.0/8".to_string()),
            ("INODE_ROUTECTL_STATE_DIR".to_string(), "/run/inode-vpn".to_string()),
        ]
    );
    assert_eq!(cfg.network.dns, DnsMode::Ignore);
    assert_eq!(join_with_commas(&vec![]), "");
    assert_eq!(join_with_commas(&vec!["a".to_string()]), "a");
}

#[test]
fn routectl_plans_with_the_daemon_cidrs() {
    let mut cfg = Config::default();
    cfg.with_key_set("preserve_cidrs", "192.168.0.0/23, 10.0.0.0/8").unwrap();
    let env = routectl_env(&cfg.network, true);
    let vars = PlanVars {
        tundev: None,
        vpngateway: None,
        internal_ip4_address: None,
        internal_ip4_netmask: None,
        internal_ip4_mtu: None,
        internal_ip4_dns: None,
        inode_dns_mode: Some(env[0].1.clone()),
        split_entries: vec![],
        inode_preserve_cidrs: Some(env[1].1.clone()),
        inode_phys_gateway: None,
        inode_phys_iface: None,
    };
    let plan = RoutePlan::from_vars("connect", &vars).unwrap();
    assert_eq!(plan.preserve_cidrs, cfg.network.preserve_cidrs);
    assert_eq!(plan.dns_mode, "server");
}

#[test]
fn progress_levels_auth_fields_and_pins() {
    assert_eq!(log_level(0), LogLevel::Error);
    assert_eq!(log_level(1), LogLevel::Info);
    assert_eq!(log_level(2), LogLevel::Debug);
    assert_eq!(log_level(3), LogLevel::Trace);
    assert_eq!(log_level(9), LogLevel::Info);
    assert_eq!(auth_field("username"), Some(AuthField::Username));
    assert_eq!(auth_field("password"), Some(AuthField::Password));
    assert_eq!(auth_field("group"), None);
    assert_eq!(cert_verdict(""), CertVerdict::Reject);
    assert_eq!(cert_verdict("pin-sha256:abc"), CertVerdict::CheckPin);
}
