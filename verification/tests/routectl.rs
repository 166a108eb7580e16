use inode_vpn::command::Step;
use inode_vpn::linux;
use inode_vpn::macos;
use inode_vpn::macos::{parse_service_order, prefix_to_netmask, split_cidr};
use inode_vpn::plan::{netmask_to_prefix, split_route_count, PlanVars, RoutePlan, SplitEntry};
use inode_vpn::routectl::{run, SUPPORTED_REASONS};

fn no_vars() -> PlanVars {
    PlanVars {
        tundev: None,
        vpngateway: None,
        internal_ip4_address: None,
        internal_ip4_netmask: None,
        internal_ip4_mtu: None,
        internal_ip4_dns: None,
        inode_dns_mode: None,
        split_entries: vec![],
        inode_preserve_cidrs: None,
        inode_phys_gateway: None,
        inode_phys_iface: None,
    }
}

fn live_vars() -> PlanVars {
    PlanVars {
        tundev: Some("tun0".into()),
        internal_ip4_address: Some("10.1.1.20".into()),
        internal_ip4_netmask: Some("255.255.255.0".into()),
        internal_ip4_mtu: Some("1400".into()),
        internal_ip4_dns: Some("223.5.5.5 223.6.6.6".into()),
        split_entries: vec![SplitEntry {
            addr: Some("192.168.0.0".into()),
            masklen: Some("18".into()),
        }],
        vpngateway: Some("140.206.103.26".into()),
        inode_preserve_cidrs: Some("192.168.0.0/23".into()),
        ..no_vars()
    }
}

/// Each step as text: `!` marks a step whose failure stops the sequence.
fn show(steps: &[Step]) -> Vec<String> {
    steps
        .iter()
        .map(|s| match s {
            Step::Run { command, must_succeed } => format!(
                "{}{} {}",
                if *must_succeed { "!" } else { "" },
                command.program,
                command.args.join(" ")
            ),
            Step::Fail(e) => format!("fail: {}", e.message()),
        })
        .collect()
}

#[test]
fn rejects_unknown_reason() {
    assert!(run("explode").is_err());
}

#[test]
fn accepts_vpnc_script_phases() {
    for reason in SUPPORTED_REASONS {
        assert!(run(reason).is_ok(), "reason {reason} should be accepted");
    }
}

#[test]
fn unknown_reason_message() {
    assert_eq!(
        run("explode").unwrap_err().message(),
        "route setup failed: unsupported vpnc-script reason: explode"
    );
}

#[test]
fn network_cidr_normalises_host_bits() {
    assert_eq!(linux::network_cidr("192.168.0.128", "23"), "192.168.0.0/23");
    assert_eq!(linux::network_cidr("10.1.2.3", "24"), "10.1.2.0/24");
    assert_eq!(linux::network_cidr("10.1.2.3", "0"), "0.0.0.0/0");
    assert_eq!(linux::network_cidr("10.1.2.3", "33"), "10.1.2.3/32");
}

#[test]
fn network_cidr_keeps_unparsable_addresses() {
    assert_eq!(linux::network_cidr("10.1.2", "24"), "10.1.2/24");
    assert_eq!(linux::network_cidr("10.1.2.3", "x"), "10.1.2.3/32");
    assert_eq!(linux::network_cidr("010.1.2.3", "8"), "010.1.2.3/8");
}

#[test]
fn netmask_and_cidr_conversion() {
    assert_eq!(prefix_to_netmask(24), "255.255.255.0");
    assert_eq!(prefix_to_netmask(18), "255.255.192.0");
    assert_eq!(
        split_cidr("192.168.0.0/18").unwrap(),
        ("192.168.0.0".to_string(), "255.255.192.0".to_string())
    );
    assert!(split_cidr("10.0.0.0/99").is_err());
}

#[test]
fn netmask_edges_and_cidr_errors() {
    assert_eq!(prefix_to_netmask(0), "0.0.0.0");
    assert_eq!(prefix_to_netmask(32), "255.255.255.255");
    assert_eq!(prefix_to_netmask(200), "255.255.255.255");
    assert_eq!(split_cidr("10.0.0.0").unwrap_err().message(), "route setup failed: bad CIDR: 10.0.0.0");
    assert_eq!(
        split_cidr("10.0.0.0/x").unwrap_err().message(),
        "route setup failed: bad CIDR prefix: 10.0.0.0/x"
    );
}

#[test]
fn parses_networksetup_service_order() {
    let text = "(1) Wi-Fi\n(Hardware Port: Wi-Fi, Device: en0)\n\n(2) USB 10/100/1000 LAN\n(Hardware Port: USB 10/100/1000 LAN, Device: en5)\n";
    assert_eq!(parse_service_order(text, "en0").as_deref(), Some("Wi-Fi"));
    assert_eq!(parse_service_order(text, "en5").as_deref(), Some("USB 10/100/1000 LAN"));
    assert_eq!(parse_service_order(text, "en7"), None);
}

#[test]
fn netmask_conversion() {
    assert_eq!(netmask_to_prefix("255.255.255.0").unwrap(), 24);
    assert_eq!(netmask_to_prefix("255.255.192.0").unwrap(), 18);
    assert_eq!(netmask_to_prefix("24").unwrap(), 24);
    assert_eq!(netmask_to_prefix("0.0.0.0").unwrap(), 0);
    assert!(netmask_to_prefix("255.0.255.0").is_err());
}

#[test]
fn netmask_errors_name_the_mask() {
    assert_eq!(
        netmask_to_prefix("255.0.255.0").unwrap_err().message(),
        "route setup failed: non-contiguous netmask: \"255.0.255.0\""
    );
    assert_eq!(netmask_to_prefix("255.255.255.255").unwrap(), 32);
    assert_eq!(netmask_to_prefix("128.0.0.0").unwrap(), 1);
    assert_eq!(
        netmask_to_prefix("1.2.3").unwrap_err().message(),
        "route setup failed: bad netmask: \"1.2.3\""
    );
}

#[test]
fn parses_live_gateway_environment() {
    let p = RoutePlan::from_vars("connect", &live_vars()).unwrap();
    assert_eq!(p.tun_cidr().as_deref(), Some("10.1.1.20/24"));
    assert_eq!(p.mtu, Some(1400));
    assert_eq!(p.dns, vec!["223.5.5.5", "223.6.6.6"]);
    assert_eq!(p.split_routes, vec!["192.168.0.0/18"]);
    assert_eq!(p.preserve_cidrs, vec!["192.168.0.0/23"]);
    assert!(p.is_up_phase());
}

#[test]
fn disconnect_parses_without_ip() {
    let vars = PlanVars {
        tundev: Some("tun0".into()),
        vpngateway: Some("140.206.103.26".into()),
        ..no_vars()
    };
    let p = RoutePlan::from_vars("disconnect", &vars).unwrap();
    assert!(!p.is_up_phase());
    assert!(p.tun_ip.is_none());
}

#[test]
fn plan_defaults_and_errors() {
    let p = RoutePlan::from_vars("reconnect", &no_vars()).unwrap();
    assert_eq!(p.tun_iface, "tun0");
    assert_eq!(p.dns_mode, "server");
    assert!(p.is_up_phase());
    assert!(p.tun_cidr().is_none());
    assert!(p.dns.is_empty());
    let bad_mask = PlanVars { internal_ip4_netmask: Some("255.0.255.0".into()), ..no_vars() };
    assert!(RoutePlan::from_vars("connect", &bad_mask).is_err());
    let bad_split = PlanVars {
        split_entries: vec![
            SplitEntry { addr: Some("10.0.0.0".into()), masklen: None },
            SplitEntry { addr: Some("10.1.0.0".into()), masklen: Some("x".into()) },
        ],
        ..no_vars()
    };
    assert_eq!(
        RoutePlan::from_vars("connect", &bad_split).unwrap_err().message(),
        "route setup failed: bad CISCO_SPLIT_INC_1_MASKLEN value: \"x\""
    );
    assert_eq!(split_route_count(&Some("3".into())), 3);
    assert_eq!(split_route_count(&Some("-1".into())), 0);
    assert_eq!(split_route_count(&None), 0);
}

#[test]
fn plan_description() {
    let p = RoutePlan::from_vars("connect", &live_vars()).unwrap();
    assert_eq!(
        p.describe(),
        "reason=connect tun=tun0 tun_ip=Some(\"10.1.1.20\")/Some(24) mtu=Some(1400) dns=[\"223.5.5.5\", \"223.6.6.6\"] dns_mode=server split=[\"192.168.0.0/18\"] preserve=[\"192.168.0.0/23\"] vpn_gateway=Some(\"140.206.103.26\")"
    );
}

#[test]
fn linux_phases() {
    let mut p = RoutePlan::from_vars("pre-init", &no_vars()).unwrap();
    assert_eq!(linux::apply(&p).unwrap(), linux::Phase::PreInit);
    p.reason = "reconnect".into();
    assert_eq!(linux::apply(&p).unwrap(), linux::Phase::Connect);
    p.reason = "disconnect".into();
    assert_eq!(linux::apply(&p).unwrap(), linux::Phase::Disconnect);
    p.reason = "attempt-reconnect".into();
    assert_eq!(linux::apply(&p).unwrap(), linux::Phase::Connect);
    assert!(run("attempt-reconnect").is_ok());
    p.reason = "explode".into();
    assert_eq!(
        linux::apply(&p).unwrap_err().message(),
        "route setup failed: unsupported reason: explode"
    );
}

#[test]
fn linux_discovers_physical_path() {
    let route = "default via 192.168.1.1 dev wlan0 proto dhcp metric 600\n";
    let addr = "3: wlan0    inet 192.168.1.23/24 brd 192.168.1.255 scope global wlan0\n";
    assert_eq!(linux::default_route_field(route, "via").as_deref(), Some("192.168.1.1"));
    assert_eq!(linux::default_route_field(route, "dev").as_deref(), Some("wlan0"));
    assert_eq!(linux::default_route_field("", "via"), None);
    assert_eq!(
        linux::local_addr_from(addr),
        Some(("192.168.1.23".to_string(), "192.168.1.0/24".to_string()))
    );
    let p = RoutePlan::from_vars("connect", &live_vars()).unwrap();
    let ph = linux::PhysicalState::discover(&p, &Some(route.into()), &Some(addr.into()));
    assert_eq!(ph.gateway.as_deref(), Some("192.168.1.1"));
    assert_eq!(ph.iface.as_deref(), Some("wlan0"));
    assert_eq!(ph.local_ip.as_deref(), Some("192.168.1.23"));
    assert_eq!(ph.local_prefix.as_deref(), Some("192.168.1.0/24"));
    assert!(ph.is_usable());
    let over = PlanVars {
        inode_phys_gateway: Some("10.9.9.1".into()),
        inode_phys_iface: Some("eth9".into()),
        ..live_vars()
    };
    let p = RoutePlan::from_vars("connect", &over).unwrap();
    let ph = linux::PhysicalState::discover(&p, &None, &None);
    assert_eq!(ph.gateway.as_deref(), Some("10.9.9.1"));
    assert_eq!(ph.iface.as_deref(), Some("eth9"));
    assert!(ph.local_ip.is_none());
    let empty = linux::PhysicalState::discover(&RoutePlan::from_vars("x", &no_vars()).unwrap(), &None, &None);
    assert!(!empty.is_usable());
}

fn linux_phys() -> linux::PhysicalState {
    linux::PhysicalState {
        gateway: Some("192.168.1.1".into()),
        iface: Some("wlan0".into()),
        local_ip: Some("192.168.1.23".into()),
        local_prefix: Some("192.168.1.0/24".into()),
    }
}

#[test]
fn linux_connect_commands() {
    let p = RoutePlan::from_vars("connect", &live_vars()).unwrap();
    assert_eq!(
        show(&linux::connect_steps(&p, &linux_phys())),
        vec![
            "!ip addr replace 10.1.1.20/24 peer 10.1.1.20/24 dev tun0",
            "!ip link set dev tun0 up",
            "ip link set dev tun0 mtu 1400",
            "!ip route replace 140.206.103.26/32 via 192.168.1.1 dev wlan0",
            "!ip route replace 192.168.1.23/32 via 192.168.1.1 dev wlan0",
            "!ip route replace 192.168.1.0/24 via 192.168.1.1 dev wlan0",
            "!ip route replace 192.168.0.0/23 via 192.168.1.1 dev wlan0",
            "!ip route replace 192.168.0.0/18 dev tun0",
        ]
    );
}

#[test]
fn linux_disconnect_commands() {
    let p = RoutePlan::from_vars("disconnect", &live_vars()).unwrap();
    assert_eq!(
        show(&linux::disconnect_steps(&p, &linux_phys())),
        vec![
            "ip route del 192.168.0.0/18 dev tun0",
            "ip route del 140.206.103.26/32 via 192.168.1.1 dev wlan0",
            "ip route del 192.168.1.23/32 via 192.168.1.1 dev wlan0",
            "ip route del 192.168.1.0/24 via 192.168.1.1 dev wlan0",
            "ip route del 192.168.0.0/23 via 192.168.1.1 dev wlan0",
            "ip link set dev tun0 down",
        ]
    );
}

#[test]
fn linux_dns_commands() {
    let p = RoutePlan::from_vars("connect", &live_vars()).unwrap();
    let c = linux::dns_apply(&p).unwrap();
    assert_eq!(c.primary.program, "resolvectl");
    assert_eq!(c.primary.args, vec!["dns", "tun0", "223.5.5.5", "223.6.6.6"]);
    assert_eq!(c.fallback.program, "resolvconf");
    assert_eq!(c.fallback.args, vec!["-a", "tun0.openconnect"]);
    let ignore = PlanVars { inode_dns_mode: Some("ignore".into()), ..live_vars() };
    assert!(linux::dns_apply(&RoutePlan::from_vars("connect", &ignore).unwrap()).is_none());
    let (a, b) = linux::dns_revert(&p);
    assert_eq!(a.args, vec!["revert", "tun0"]);
    assert_eq!(b.args, vec!["-d", "tun0.openconnect"]);
    assert_eq!(linux::state_file_name("tun0"), "routectl-tun0.json");
}

fn mac_vars() -> PlanVars {
    PlanVars { tundev: Some("utun4".into()), ..live_vars() }
}

fn mac_phys() -> macos::PhysicalState {
    macos::PhysicalState {
        gateway: Some("192.168.1.1".into()),
        iface: Some("en0".into()),
        local_ip: Some("192.168.1.23".into()),
    }
}

#[test]
fn macos_phases_and_discovery() {
    let mut p = RoutePlan::from_vars("attempt-reconnect", &mac_vars()).unwrap();
    assert_eq!(macos::apply(&p).unwrap(), linux::Phase::Connect);
    p.reason = "bogus".into();
    assert!(macos::apply(&p).is_err());
    let route = "   route to: default\ndestination: default\n    gateway: 192.168.1.1\n  interface: en0\n";
    let ifc = "en0: flags=8863<UP>\n\tinet6 fe80::1%en0 prefixlen 64\n\tinet 192.168.1.23 netmask 0xffffff00\n";
    assert_eq!(macos::default_route_field(route, "gateway:").as_deref(), Some("192.168.1.1"));
    assert_eq!(macos::ifconfig_local_ip(ifc).as_deref(), Some("192.168.1.23"));
    let ph = macos::PhysicalState::discover(&p, &Some(route.into()), &Some(ifc.into()));
    assert_eq!(ph.iface.as_deref(), Some("en0"));
    assert_eq!(ph.local_ip.as_deref(), Some("192.168.1.23"));
}

#[test]
fn macos_connect_and_disconnect_commands() {
    let p = RoutePlan::from_vars("connect", &mac_vars()).unwrap();
    assert_eq!(
        show(&macos::connect_steps(&p, &mac_phys())),
        vec![
            "!ifconfig utun4 10.1.1.20 10.1.1.20 netmask 255.255.255.0 mtu 1400 up",
            "!route -n add -host 140.206.103.26 192.168.1.1",
            "!route -n add -host 192.168.1.23 192.168.1.1",
            "!route -n add -net 192.168.0.0 -netmask 255.255.254.0 192.168.1.1",
            "!route -n add -net 192.168.0.0 -netmask 255.255.192.0 10.1.1.20",
        ]
    );
    assert_eq!(
        show(&macos::disconnect_steps(&p, &mac_phys())),
        vec![
            "route -n delete -host 140.206.103.26",
            "route -n delete -host 192.168.1.23",
            "route -n delete -net 192.168.0.0 -netmask 255.255.192.0 10.1.1.20",
            "ifconfig utun4 down",
        ]
    );
    assert_eq!(show(&macos::pre_init_steps(&p)), vec!["route -n delete -host 140.206.103.26"]);
}

#[test]
fn macos_bad_preserved_cidr_stops_connect() {
    let vars = PlanVars { inode_preserve_cidrs: Some("10.0.0.0/40".into()), ..mac_vars() };
    let p = RoutePlan::from_vars("connect", &vars).unwrap();
    let shown = show(&macos::connect_steps(&p, &mac_phys()));
    assert_eq!(shown.last().unwrap(), "fail: route setup failed: bad CIDR prefix: 10.0.0.0/40");
    assert_eq!(shown.len(), 4);
}

#[test]
fn macos_dns_commands() {
    let p = RoutePlan::from_vars("connect", &mac_vars()).unwrap();
    assert_eq!(macos::dns_iface(&p, &mac_phys()).as_deref(), Some("en0"));
    let set = macos::dns_set_command("Wi-Fi", &p.dns);
    assert_eq!(set.program, "networksetup");
    assert_eq!(set.args, vec!["-setdnsservers", "Wi-Fi", "223.5.5.5", "223.6.6.6"]);
    assert_eq!(macos::dns_clear_command("Wi-Fi").args, vec!["-setdnsservers", "Wi-Fi", "empty"]);
    let ignore = PlanVars { inode_dns_mode: Some("ignore".into()), ..mac_vars() };
    let p = RoutePlan::from_vars("connect", &ignore).unwrap();
    assert!(macos::dns_iface(&p, &mac_phys()).is_none());
}

#[test]
fn netmask_round_trips_every_prefix() {
    for p in 0u8..=32 {
        assert_eq!(netmask_to_prefix(&prefix_to_netmask(p)).unwrap(), p);
    }
}
