//! The system service: the unit (systemd) or property list (launchd) that
//! runs the daemon for a user, and the privileged commands that install,
//! enable, disable and inspect it. Each command runs under `sudo`.

use vstd::prelude::*;

use crate::command::{command, command_view, push_run, run_view, steps_view, Args, Command, Step, StepView};
use crate::paths::{parent_of, path_parent};
use crate::platform::Platform;
use crate::text::{chars_of, decimal, decimal_string, opt_view, parse_bounded, parse_unsigned, trim, trim_chars, views};

verus! {

/// The systemd template unit; instances are named by user id.
pub const UNIT_NAME: &'static str = "inode-vpnd@";

/// The launchd job.
pub const LAUNCHD_LABEL: &'static str = "cc.inode.vpn-daemon";

pub const LAUNCHD_PLIST: &'static str = "/Library/LaunchDaemons/cc.inode.vpn-daemon.plist";

/// A stable link to the directory of the installed binaries, so that the
/// service never refers to a store path that may be collected.
pub const STABLE_DIR: &'static str = "/var/lib/inode-vpn";

pub const STABLE_LINK: &'static str = "/var/lib/inode-vpn/current";

/// Where a Nix garbage-collector root for user `uid` keeps the package
/// alive: `/nix/var/nix/gcroots/inode-vpn-<uid>`.
pub open spec fn gc_root_of(uid: u32) -> Seq<char> {
    "/nix/var/nix/gcroots/inode-vpn-"@ + decimal(uid as nat)
}

/// The package root of the directory holding the binaries: its parent
/// (the directory itself when it has no non-empty parent).
pub open spec fn package_root(bin_dir: Seq<char>) -> Seq<char> {
    match path_parent(bin_dir) {
        Some(p) => if p.len() > 0 {
            p
        } else {
            bin_dir
        },
        None => bin_dir,
    }
}

fn package_root_of(bin_dir: &str) -> (r: String)
    ensures
        r@ == package_root(bin_dir@),
{
    match parent_of(bin_dir) {
        Some(p) => if p.as_str().unicode_len() > 0 {
            p
        } else {
            String::from_str(bin_dir)
        },
        None => String::from_str(bin_dir),
    }
}

/// The daemon as the service runs it, through the stable link.
pub const SERVICE_EXEC: &'static str = "/var/lib/inode-vpn/current/bin/inode-vpnd";

pub open spec fn unit_name_of(uid: u32) -> Seq<char> {
    "inode-vpnd@"@ + decimal(uid as nat) + ".service"@
}

/// `inode-vpnd@<uid>.service`.
pub fn unit_name_for(uid: u32) -> (r: String)
    ensures
        r@ == unit_name_of(uid),
{
    String::from_str(UNIT_NAME).concat(decimal_string(uid as u64).as_str()).concat(".service")
}

pub const UNIT_HEAD: &'static str = "[Unit]\nDescription=inode-vpn daemon (user ";

pub const UNIT_EXEC: &'static str = ")\nWants=network-online.target\nAfter=network-online.target\n\n[Service]\nType=simple\nUser=root\nExecStart=";

pub const UNIT_UID_FLAG: &'static str = " --uid ";

pub const UNIT_TAIL: &'static str = "\nRuntimeDirectory=inode-vpn\nRuntimeDirectoryMode=0755\nRestart=always\nRestartSec=5\nLimitNOFILE=65536\nCapabilityBoundingSet=CAP_NET_ADMIN CAP_SETUID CAP_SETGID\nAmbientCapabilities=CAP_NET_ADMIN CAP_SETUID CAP_SETGID\nNoNewPrivileges=yes\nPrivateTmp=yes\nProtectSystem=strict\nProtectHome=read-only\nReadWritePaths=/run/inode-vpn\n\n[Install]\nWantedBy=multi-user.target\n";

/// The systemd unit: the daemon runs as root for user `uid`, restarts
/// always, and holds only the network and identity capabilities.
pub open spec fn unit_text_of(uid: u32, exec: Seq<char>) -> Seq<char> {
    UNIT_HEAD@ + decimal(uid as nat) + UNIT_EXEC@ + exec + UNIT_UID_FLAG@ + decimal(uid as nat)
        + UNIT_TAIL@
}

pub fn unit_text(uid: u32, exec: &str) -> (r: String)
    ensures
        r@ == unit_text_of(uid, exec@),
{
    let u = decimal_string(uid as u64);
    String::from_str(UNIT_HEAD).concat(u.as_str()).concat(UNIT_EXEC).concat(exec).concat(
        UNIT_UID_FLAG,
    ).concat(u.as_str()).concat(UNIT_TAIL)
}

pub const PLIST_HEAD: &'static str = "<?xml version=\"1.0\" encoding=\"UTF-8\"?>\n<!DOCTYPE plist PUBLIC \"-//Apple//DTD PLIST 1.0//EN\" \"http://www.apple.com/DTDs/PropertyList-1.0.dtd\">\n<plist version=\"1.0\"><dict>\n  <key>Label</key><string>cc.inode.vpn-daemon</string>\n  <key>ProgramArguments</key>\n  <array>\n    <string>";

pub const PLIST_UID: &'static str = "</string>\n    <string>--uid</string><string>";

pub const PLIST_TAIL: &'static str = "</string>\n  </array>\n  <key>RunAtLoad</key><true/>\n  <key>KeepAlive</key><true/>\n  <key>StandardOutPath</key><string>/var/log/inode-vpn.log</string>\n  <key>StandardErrorPath</key><string>/var/log/inode-vpn.err</string>\n</dict></plist>\n";

/// The launchd property list: the daemon for user `uid`, started at load
/// and kept alive, logging to `/var/log/inode-vpn.{log,err}`.
pub open spec fn plist_text_of(uid: u32, exec: Seq<char>) -> Seq<char> {
    PLIST_HEAD@ + exec + PLIST_UID@ + decimal(uid as nat) + PLIST_TAIL@
}

pub fn plist_text(uid: u32, exec: &str) -> (r: String)
    ensures
        r@ == plist_text_of(uid, exec@),
{
    String::from_str(PLIST_HEAD).concat(exec).concat(PLIST_UID).concat(
        decimal_string(uid as u64).as_str(),
    ).concat(PLIST_TAIL)
}

/// A user id given in the environment, when it is one.
pub open spec fn uid_override(raw: Option<Seq<char>>) -> Option<nat> {
    match raw {
        Some(s) => parse_unsigned(trim(s), u32::MAX as nat),
        None => None,
    }
}

fn parse_uid(raw: &Option<String>) -> (r: Option<u32>)
    ensures
        match r {
            Some(u) => uid_override(opt_view(*raw)) == Some(u as nat),
            None => uid_override(opt_view(*raw)) is None,
        },
{
    match raw {
        Some(s) => {
            let c = chars_of(s.as_str());
            let t = trim_chars(c.as_slice());
            match parse_bounded(t.as_slice(), 4294967295) {
                Some(v) => Some(v as u32),
                None => None,
            }
        },
        None => None,
    }
}

pub open spec fn target_uid_of(service_uid: Option<Seq<char>>, sudo_uid: Option<Seq<char>>, euid: u32) -> u32 {
    match uid_override(service_uid) {
        Some(u) => u as u32,
        None => match uid_override(sudo_uid) {
            Some(u) => u as u32,
            None => euid,
        },
    }
}

/// The user whose service is managed. `sudo inode enable` runs as root,
/// so the user that invoked `sudo` (`SUDO_UID`) is preferred to the
/// effective user, and `INODE_SERVICE_UID` overrides both.
pub fn target_uid(service_uid: &Option<String>, sudo_uid: &Option<String>, euid: u32) -> (r: u32)
    ensures
        r == target_uid_of(opt_view(*service_uid), opt_view(*sudo_uid), euid),
{
    match parse_uid(service_uid) {
        Some(u) => u,
        None => match parse_uid(sudo_uid) {
            Some(u) => u,
            None => euid,
        },
    }
}

/// `sudo <args>`, stopping the sequence when it fails or not.
pub open spec fn sudo_view(args: Seq<Seq<char>>, must: bool) -> StepView {
    run_view("sudo"@, args, must)
}

pub open spec fn stable_link_steps(bin_dir: Seq<char>) -> Seq<StepView> {
    seq![
        sudo_view(seq!["mkdir"@, "-p"@, STABLE_DIR@], true),
        sudo_view(seq!["ln"@, "-sfn"@, package_root(bin_dir), STABLE_LINK@], true),
    ]
}

/// Points `/var/lib/inode-vpn/current` at the package root, the parent of
/// the directory holding the binaries, so that the service's
/// `current/bin/inode-vpnd` is the daemon.
pub fn install_stable_link(bin_dir: &str) -> (r: Vec<Step>)
    ensures
        steps_view(r@) == stable_link_steps(bin_dir@),
{
    let mut steps: Vec<Step> = Vec::new();
    let a = Args::new().arg("mkdir").arg("-p").arg(STABLE_DIR);
    assert(views(a.items@) =~= seq!["mkdir"@, "-p"@, STABLE_DIR@]);
    push_run(&mut steps, "sudo", a, true);
    let root = package_root_of(bin_dir);
    let ghost rv = root@;
    let b = Args::new().arg("ln").arg("-sfn").owned(root).arg(STABLE_LINK);
    assert(views(b.items@) =~= seq!["ln"@, "-sfn"@, rv, STABLE_LINK@]);
    push_run(&mut steps, "sudo", b, true);
    assert(steps_view(steps@) =~= stable_link_steps(bin_dir@));
    steps
}

/// The file that describes the service, and the name it is installed
/// under.
pub struct ServiceFile {
    pub name: String,
    pub text: String,
}

pub open spec fn service_file_of(platform: Platform, uid: u32) -> (Seq<char>, Seq<char>) {
    match platform {
        Platform::Linux => (unit_name_of(uid), unit_text_of(uid, SERVICE_EXEC@)),
        Platform::Macos => (LAUNCHD_LABEL@ + ".plist"@, plist_text_of(uid, SERVICE_EXEC@)),
    }
}

/// The unit or property list for user `uid`, running the daemon through
/// the stable link.
pub fn service_file(platform: Platform, uid: u32) -> (r: ServiceFile)
    ensures
        (r.name@, r.text@) == service_file_of(platform, uid),
{
    match platform {
        Platform::Linux => {
            let name = unit_name_for(uid);
            let text = unit_text(uid, SERVICE_EXEC);
            ServiceFile { name, text }
        },
        Platform::Macos => {
            let name = String::from_str(LAUNCHD_LABEL).concat(".plist");
            let text = plist_text(uid, SERVICE_EXEC);
            ServiceFile { name, text }
        },
    }
}

pub open spec fn unit_path_of(uid: u32) -> Seq<char> {
    "/etc/systemd/system/"@ + unit_name_of(uid)
}

pub open spec fn job_target() -> Seq<char> {
    "system/"@ + LAUNCHD_LABEL@
}

/// The Nix garbage-collector root that keeps the package of `bin_dir`
/// alive; where Nix is absent its failure is ignored.
pub open spec fn gc_root_step(uid: u32, bin_dir: Seq<char>) -> StepView {
    sudo_view(seq!["ln"@, "-sfn"@, package_root(bin_dir), gc_root_of(uid)], false)
}

/// The commands that install the service file written to `tmp`, register
/// the package of `bin_dir` as a garbage-collector root, and enable the
/// service (starting it too when `now`). The first one installs the file;
/// the temporary copy may go once it succeeded.
pub open spec fn enable_steps_of(platform: Platform, uid: u32, now: bool, bin_dir: Seq<char>, tmp: Seq<char>) -> Seq<StepView> {
    match platform {
        Platform::Linux => seq![
            sudo_view(seq!["install"@, "-m"@, "0644"@, tmp, unit_path_of(uid)], true),
            gc_root_step(uid, bin_dir),
            sudo_view(seq!["systemctl"@, "daemon-reload"@], true),
            if now {
                sudo_view(seq!["systemctl"@, "enable"@, "--now"@, unit_name_of(uid)], true)
            } else {
                sudo_view(seq!["systemctl"@, "enable"@, unit_name_of(uid)], true)
            },
        ],
        Platform::Macos => seq![
            sudo_view(seq!["install"@, "-m"@, "0644"@, tmp, LAUNCHD_PLIST@], true),
            gc_root_step(uid, bin_dir),
            sudo_view(seq!["launchctl"@, "bootout"@, job_target()], false),
            sudo_view(seq!["launchctl"@, "bootstrap"@, "system"@, LAUNCHD_PLIST@], true),
        ] + if now {
            seq![sudo_view(seq!["launchctl"@, "kickstart"@, "-k"@, job_target()], true)]
        } else {
            Seq::empty()
        },
    }
}

/// `now` makes `enable` start the service as well: on Linux the last step,
/// `sudo systemctl enable` of the user's unit, gets `--now` right after
/// `enable`, the other steps unchanged; on macOS a `launchctl kickstart -k`
/// of the job follows.
pub proof fn law_enable_now_starts_service(uid: u32, bin_dir: Seq<char>, tmp: Seq<char>)
    ensures
        ({
            let t = enable_steps_of(Platform::Linux, uid, true, bin_dir, tmp);
            let f = enable_steps_of(Platform::Linux, uid, false, bin_dir, tmp);
            &&& t.len() == f.len() && f.len() > 0
            &&& t.drop_last() == f.drop_last()
            &&& t.last() is Run && f.last() is Run
            &&& t.last()->program == "sudo"@ && f.last()->program == "sudo"@
            &&& t.last()->must_succeed && f.last()->must_succeed
            &&& f.last()->args.take(2) == seq!["systemctl"@, "enable"@]
            &&& f.last()->args.last() == unit_name_of(uid)
            &&& !f.last()->args.contains("--now"@)
            &&& t.last()->args == f.last()->args.take(2) + seq!["--now"@] + f.last()->args.skip(2)
        }),
        enable_steps_of(Platform::Macos, uid, true, bin_dir, tmp) == enable_steps_of(
            Platform::Macos,
            uid,
            false,
            bin_dir,
            tmp,
        ).push(sudo_view(seq!["launchctl"@, "kickstart"@, "-k"@, job_target()], true)),
{
    reveal_strlit("--now");
    reveal_strlit("systemctl");
    reveal_strlit("enable");
    let t = enable_steps_of(Platform::Linux, uid, true, bin_dir, tmp);
    let f = enable_steps_of(Platform::Linux, uid, false, bin_dir, tmp);
    let a = f.last()->args;
    assert(a =~= seq!["systemctl"@, "enable"@, unit_name_of(uid)]);
    assert(a.take(2) =~= seq!["systemctl"@, "enable"@]);
    assert(a.skip(2) =~= seq![unit_name_of(uid)]);
    assert(t.last()->args =~= a.take(2) + seq!["--now"@] + a.skip(2));
    assert(t.drop_last() =~= f.drop_last());
    assert("--now"@[0] == '-' && "systemctl"@[0] == 's' && "enable"@[0] == 'e');
    assert(unit_name_of(uid)[0] == 'i') by {
        reveal_strlit("inode-vpnd@");
    }
    assert(!a.contains("--now"@)) by {
        if a.contains("--now"@) {
            let i = choose|i: int| 0 <= i < a.len() && a[i] == "--now"@;
            assert(a[i] == "systemctl"@ || a[i] == "enable"@ || a[i] == unit_name_of(uid));
        }
    }
    assert(enable_steps_of(Platform::Macos, uid, true, bin_dir, tmp) =~= enable_steps_of(
        Platform::Macos,
        uid,
        false,
        bin_dir,
        tmp,
    ).push(sudo_view(seq!["launchctl"@, "kickstart"@, "-k"@, job_target()], true)));
}

fn push_gc_root(steps: &mut Vec<Step>, uid: u32, bin_dir: &str)
    ensures
        steps_view(final(steps)@) == steps_view(old(steps)@).push(gc_root_step(uid, bin_dir@)),
{
    let root = package_root_of(bin_dir);
    let ghost rv = root@;
    let gc = String::from_str("/nix/var/nix/gcroots/inode-vpn-").concat(
        decimal_string(uid as u64).as_str(),
    );
    let ghost gv = gc@;
    let a = Args::new().arg("ln").arg("-sfn").owned(root).owned(gc);
    assert(views(a.items@) =~= seq!["ln"@, "-sfn"@, rv, gv]);
    push_run(steps, "sudo", a, false);
}

pub fn enable(platform: Platform, uid: u32, now: bool, bin_dir: &str, tmp: &str) -> (r: Vec<Step>)
    ensures
        steps_view(r@) == enable_steps_of(platform, uid, now, bin_dir@, tmp@),
{
    let mut steps: Vec<Step> = Vec::new();
    match platform {
        Platform::Linux => {
            let unit = unit_name_for(uid);
            let path = String::from_str("/etc/systemd/system/").concat(unit.as_str());
            let ghost uv = unit@;
            let a = Args::new().arg("install").arg("-m").arg("0644").arg(tmp).owned(path);
            assert(views(a.items@) =~= seq!["install"@, "-m"@, "0644"@, tmp@, unit_path_of(uid)]);
            push_run(&mut steps, "sudo", a, true);
            push_gc_root(&mut steps, uid, bin_dir);
            let b = Args::new().arg("systemctl").arg("daemon-reload");
            assert(views(b.items@) =~= seq!["systemctl"@, "daemon-reload"@]);
            push_run(&mut steps, "sudo", b, true);
            let c = if now {
                let c = Args::new().arg("systemctl").arg("enable").arg("--now").owned(unit);
                assert(views(c.items@) =~= seq!["systemctl"@, "enable"@, "--now"@, uv]);
                c
            } else {
                let c = Args::new().arg("systemctl").arg("enable").owned(unit);
                assert(views(c.items@) =~= seq!["systemctl"@, "enable"@, uv]);
                c
            };
            push_run(&mut steps, "sudo", c, true);
        },
        Platform::Macos => {
            let target = String::from_str("system/").concat(LAUNCHD_LABEL);
            let a = Args::new().arg("install").arg("-m").arg("0644").arg(tmp).arg(LAUNCHD_PLIST);
            assert(views(a.items@) =~= seq!["install"@, "-m"@, "0644"@, tmp@, LAUNCHD_PLIST@]);
            push_run(&mut steps, "sudo", a, true);
            push_gc_root(&mut steps, uid, bin_dir);
            let b = Args::new().arg("launchctl").arg("bootout").owned(target.clone());
            assert(views(b.items@) =~= seq!["launchctl"@, "bootout"@, job_target()]);
            push_run(&mut steps, "sudo", b, false);
            let c = Args::new().arg("launchctl").arg("bootstrap").arg("system").arg(LAUNCHD_PLIST);
            assert(views(c.items@) =~= seq!["launchctl"@, "bootstrap"@, "system"@, LAUNCHD_PLIST@]);
            push_run(&mut steps, "sudo", c, true);
            if now {
                let d = Args::new().arg("launchctl").arg("kickstart").arg("-k").owned(target);
                assert(views(d.items@) =~= seq!["launchctl"@, "kickstart"@, "-k"@, job_target()]);
                push_run(&mut steps, "sudo", d, true);
            }
        },
    }
    assert(steps_view(steps@) =~= enable_steps_of(platform, uid, now, bin_dir@, tmp@));
    steps
}

/// The commands that disable the service (stopping it too when `now`) and
/// remove its file.
pub open spec fn disable_steps_of(platform: Platform, uid: u32, now: bool) -> Seq<StepView> {
    match platform {
        Platform::Linux => seq![
            if now {
                sudo_view(seq!["systemctl"@, "disable"@, "--now"@, unit_name_of(uid)], true)
            } else {
                sudo_view(seq!["systemctl"@, "disable"@, unit_name_of(uid)], true)
            },
            sudo_view(seq!["rm"@, "-f"@, unit_path_of(uid)], true),
            sudo_view(seq!["systemctl"@, "daemon-reload"@], true),
        ],
        Platform::Macos => (if now {
            seq![sudo_view(seq!["launchctl"@, "bootout"@, job_target()], false)]
        } else {
            Seq::empty()
        }) + seq![sudo_view(seq!["rm"@, "-f"@, LAUNCHD_PLIST@], true)],
    }
}

/// `now` makes `disable` stop the service as well: on Linux the same
/// `sudo systemctl disable` of the user's unit gets `--now` right after
/// `disable`, the other steps unchanged; on macOS a `launchctl bootout` of
/// the job comes first.
pub proof fn law_disable_now_stops_service(uid: u32)
    ensures
        ({
            let t = disable_steps_of(Platform::Linux, uid, true);
            let f = disable_steps_of(Platform::Linux, uid, false);
            &&& t.len() == f.len()
            &&& t.skip(1) == f.skip(1)
            &&& t[0] is Run && f[0] is Run
            &&& t[0]->program == "sudo"@ && f[0]->program == "sudo"@
            &&& t[0]->must_succeed && f[0]->must_succeed
            &&& f[0]->args.take(2) == seq!["systemctl"@, "disable"@]
            &&& f[0]->args.last() == unit_name_of(uid)
            &&& !f[0]->args.contains("--now"@)
            &&& t[0]->args == f[0]->args.take(2) + seq!["--now"@] + f[0]->args.skip(2)
        }),
        disable_steps_of(Platform::Macos, uid, true) == seq![
            sudo_view(seq!["launchctl"@, "bootout"@, job_target()], false),
        ] + disable_steps_of(Platform::Macos, uid, false),
{
    reveal_strlit("--now");
    reveal_strlit("systemctl");
    reveal_strlit("disable");
    let t = disable_steps_of(Platform::Linux, uid, true);
    let f = disable_steps_of(Platform::Linux, uid, false);
    let a = f[0]->args;
    assert(a =~= seq!["systemctl"@, "disable"@, unit_name_of(uid)]);
    assert(a.take(2) =~= seq!["systemctl"@, "disable"@]);
    assert(a.skip(2) =~= seq![unit_name_of(uid)]);
    assert(t[0]->args =~= a.take(2) + seq!["--now"@] + a.skip(2));
    assert(t.skip(1) =~= f.skip(1));
    assert("--now"@[0] == '-' && "systemctl"@[0] == 's' && "disable"@[0] == 'd');
    assert("--now"@ != "systemctl"@);
    assert("--now"@ != "disable"@);
    assert(unit_name_of(uid)[0] == 'i') by {
        reveal_strlit("inode-vpnd@");
    }
    assert("--now"@ != unit_name_of(uid));
    assert(!a.contains("--now"@)) by {
        if a.contains("--now"@) {
            let i = choose|i: int| 0 <= i < a.len() && a[i] == "--now"@;
            assert(a[i] == "systemctl"@ || a[i] == "disable"@ || a[i] == unit_name_of(uid));
        }
    }
    assert(disable_steps_of(Platform::Macos, uid, true) =~= seq![
        sudo_view(seq!["launchctl"@, "bootout"@, job_target()], false),
    ] + disable_steps_of(Platform::Macos, uid, false));
}

pub fn disable(platform: Platform, uid: u32, now: bool) -> (r: Vec<Step>)
    ensures
        steps_view(r@) == disable_steps_of(platform, uid, now),
{
    let mut steps: Vec<Step> = Vec::new();
    match platform {
        Platform::Linux => {
            let unit = unit_name_for(uid);
            let path = String::from_str("/etc/systemd/system/").concat(unit.as_str());
            let ghost uv = unit@;
            let a = if now {
                let a = Args::new().arg("systemctl").arg("disable").arg("--now").owned(unit);
                assert(views(a.items@) =~= seq!["systemctl"@, "disable"@, "--now"@, uv]);
                a
            } else {
                let a = Args::new().arg("systemctl").arg("disable").owned(unit);
                assert(views(a.items@) =~= seq!["systemctl"@, "disable"@, uv]);
                a
            };
            push_run(&mut steps, "sudo", a, true);
            let b = Args::new().arg("rm").arg("-f").owned(path);
            assert(views(b.items@) =~= seq!["rm"@, "-f"@, unit_path_of(uid)]);
            push_run(&mut steps, "sudo", b, true);
            let c = Args::new().arg("systemctl").arg("daemon-reload");
            assert(views(c.items@) =~= seq!["systemctl"@, "daemon-reload"@]);
            push_run(&mut steps, "sudo", c, true);
        },
        Platform::Macos => {
            if now {
                let target = String::from_str("system/").concat(LAUNCHD_LABEL);
                let a = Args::new().arg("launchctl").arg("bootout").owned(target);
                assert(views(a.items@) =~= seq!["launchctl"@, "bootout"@, job_target()]);
                push_run(&mut steps, "sudo", a, false);
            }
            let b = Args::new().arg("rm").arg("-f").arg(LAUNCHD_PLIST);
            assert(views(b.items@) =~= seq!["rm"@, "-f"@, LAUNCHD_PLIST@]);
            push_run(&mut steps, "sudo", b, true);
        },
    }
    assert(steps_view(steps@) =~= disable_steps_of(platform, uid, now));
    steps
}

/// The command that shows (or follows) the daemon's log: the journal of
/// its unit, or the last lines of its log files.
pub open spec fn logs_command_of(platform: Platform, uid: u32, follow: bool) -> (Seq<char>, Seq<Seq<char>>) {
    match platform {
        Platform::Linux => (
            "journalctl"@,
            seq!["-u"@, unit_name_of(uid)] + if follow {
                seq!["-f"@]
            } else {
                Seq::empty()
            },
        ),
        Platform::Macos => (
            "tail"@,
            (if follow {
                seq!["-f"@]
            } else {
                seq!["-n"@, "100"@]
            }) + seq!["/var/log/inode-vpn.log"@, "/var/log/inode-vpn.err"@],
        ),
    }
}

pub fn logs(platform: Platform, uid: u32, follow: bool) -> (r: Command)
    ensures
        command_view(r) == logs_command_of(platform, uid, follow),
{
    match platform {
        Platform::Linux => {
            let mut a = Args::new().arg("-u").owned(unit_name_for(uid));
            if follow {
                a = a.arg("-f");
            }
            let r = command("journalctl", a);
            assert(command_view(r) =~= logs_command_of(platform, uid, follow));
            r
        },
        Platform::Macos => {
            let mut a = Args::new();
            if follow {
                a = a.arg("-f");
            } else {
                a = a.arg("-n").arg("100");
            }
            a = a.arg("/var/log/inode-vpn.log").arg("/var/log/inode-vpn.err");
            let r = command("tail", a);
            assert(command_view(r) =~= logs_command_of(platform, uid, follow));
            r
        },
    }
}

} // verus!
