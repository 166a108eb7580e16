use inode_vpn::command::Step;
use inode_vpn::platform::Platform;
use inode_vpn::service::{
    disable, enable, install_stable_link, logs, plist_text, service_file, target_uid, unit_name_for,
    unit_text,
};

fn show(steps: &[Step]) -> Vec<String> {
    steps
        .iter()
        .map(|s| match s {
            Step::Run { command, must_succeed } => format!(
                "{}{} {}",
                if *must_succeed { "!" } else { "" },
                command.program,
                command.args.join(" ")
            ),
            Step::Fail(e) => format!("fail: {}", e.message()),
        })
        .collect()
}

#[test]
fn unit_text_contains_stable_contract() {
    let text = unit_text(501, "/var/lib/inode-vpn/current/bin/inode-vpnd");
    assert!(text.contains("Description=inode-vpn daemon (user 501)"));
    assert!(text.contains("ExecStart=/var/lib/inode-vpn/current/bin/inode-vpnd --uid 501"));
    assert!(text.contains("Restart=always"));
    assert!(text.contains("RuntimeDirectory=inode-vpn"));
    assert!(text.contains("WantedBy=multi-user.target"));
    assert!(text.contains("CapabilityBoundingSet=CAP_NET_ADMIN CAP_SETUID CAP_SETGID"));
    assert!(text.contains("ProtectSystem=strict"));
    assert!(text.contains("ProtectHome=read-only"));
}

#[test]
fn unit_text_is_a_complete_unit() {
    let text = unit_text(0, "/x");
    assert!(text.starts_with("[Unit]\nDescription=inode-vpn daemon (user 0)\n"));
    assert!(text.ends_with("[Install]\nWantedBy=multi-user.target\n"));
    assert!(text.contains("\nRuntimeDirectoryMode=0755\n"));
    assert_eq!(text.lines().count(), 24);
}

#[test]
fn plist_contains_stable_contract() {
    let text = plist_text(501, "/var/lib/inode-vpn/current/bin/inode-vpnd");
    assert!(text.contains("<key>Label</key><string>cc.inode.vpn-daemon</string>"));
    assert!(text.contains("<string>/var/lib/inode-vpn/current/bin/inode-vpnd</string>"));
    assert!(text.contains("<key>KeepAlive</key><true/>"));
    assert!(text.contains("<string>--uid</string><string>501</string>"));
}

#[test]
fn target_uid_prefers_env_overrides() {
    assert_eq!(target_uid(&Some("501".into()), &None, 0), 501);
    assert_eq!(target_uid(&Some(" 501\n".into()), &Some("600".into()), 0), 501);
    assert_eq!(target_uid(&Some("nope".into()), &Some("600".into()), 0), 600);
    assert_eq!(target_uid(&None, &Some("4294967296".into()), 7), 7);
    assert_eq!(target_uid(&None, &None, 1000), 1000);
}

#[test]
fn unit_names() {
    assert_eq!(unit_name_for(501), "inode-vpnd@501.service");
    let f = service_file(Platform::Linux, 501);
    assert_eq!(f.name, "inode-vpnd@501.service");
    assert!(f.text.contains("ExecStart=/var/lib/inode-vpn/current/bin/inode-vpnd --uid 501"));
    let f = service_file(Platform::Macos, 501);
    assert_eq!(f.name, "cc.inode.vpn-daemon.plist");
    assert!(f.text.contains("<string>/var/lib/inode-vpn/current/bin/inode-vpnd</string>"));
}

#[test]
fn stable_link_commands() {
    assert_eq!(
        show(&install_stable_link("bin"))[1],
        "!sudo ln -sfn bin /var/lib/inode-vpn/current"
    );
    assert_eq!(
        show(&install_stable_link("/nix/store/abc-inode/bin")),
        vec![
            "!sudo mkdir -p /var/lib/inode-vpn",
            "!sudo ln -sfn /nix/store/abc-inode /var/lib/inode-vpn/current",
        ]
    );
}

#[test]
fn linux_service_commands() {
    assert_eq!(
        show(&enable(Platform::Linux, 501, true, "/nix/store/abc-inode/bin", "/tmp/u")),
        vec![
            "!sudo install -m 0644 /tmp/u /etc/systemd/system/inode-vpnd@501.service",
            "sudo ln -sfn /nix/store/abc-inode /nix/var/nix/gcroots/inode-vpn-501",
            "!sudo systemctl daemon-reload",
            "!sudo systemctl enable --now inode-vpnd@501.service",
        ]
    );
    assert_eq!(
        show(&enable(Platform::Linux, 501, false, "/nix/store/abc-inode/bin", "/tmp/u"))[3],
        "!sudo systemctl enable inode-vpnd@501.service"
    );
    assert_eq!(
        show(&disable(Platform::Linux, 501, false)),
        vec![
            "!sudo systemctl disable inode-vpnd@501.service",
            "!sudo rm -f /etc/systemd/system/inode-vpnd@501.service",
            "!sudo systemctl daemon-reload",
        ]
    );
    let c = logs(Platform::Linux, 501, true);
    assert_eq!(c.program, "journalctl");
    assert_eq!(c.args, vec!["-u", "inode-vpnd@501.service", "-f"]);
}

#[test]
fn macos_service_commands() {
    assert_eq!(
        show(&enable(Platform::Macos, 501, true, "/nix/store/abc-inode/bin", "/tmp/p")),
        vec![
            "!sudo install -m 0644 /tmp/p /Library/LaunchDaemons/cc.inode.vpn-daemon.plist",
            "sudo ln -sfn /nix/store/abc-inode /nix/var/nix/gcroots/inode-vpn-501",
            "sudo launchctl bootout system/cc.inode.vpn-daemon",
            "!sudo launchctl bootstrap system /Library/LaunchDaemons/cc.inode.vpn-daemon.plist",
            "!sudo launchctl kickstart -k system/cc.inode.vpn-daemon",
        ]
    );
    assert_eq!(show(&enable(Platform::Macos, 501, false, "/nix/store/abc-inode/bin", "/tmp/p")).len(), 4);
    assert_eq!(
        show(&disable(Platform::Macos, 501, true)),
        vec![
            "sudo launchctl bootout system/cc.inode.vpn-daemon",
            "!sudo rm -f /Library/LaunchDaemons/cc.inode.vpn-daemon.plist",
        ]
    );
    assert_eq!(show(&disable(Platform::Macos, 501, false)).len(), 1);
    let c = logs(Platform::Macos, 501, false);
    assert_eq!(c.program, "tail");
    assert_eq!(c.args, vec!["-n", "100", "/var/log/inode-vpn.log", "/var/log/inode-vpn.err"]);
}
