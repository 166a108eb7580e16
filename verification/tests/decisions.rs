use inode_vpn::command::{step_ends_run, Command, Step};
use inode_vpn::config::{daemon_config_path, Credentials};
use inode_vpn::dispatch::{
    grace_deadline, restart_step, RestartStep, RESTART_GRACE_NANOS, RESTART_POLL_MILLIS,
    SHUTDOWN_GRACE_NANOS,
};
use inode_vpn::error::Error;
use inode_vpn::redact::Redactor;

#[test]
fn restart_first_requests_stop() {
    assert_eq!(restart_step(false, true, 0, u64::MAX), RestartStep::RequestStop);
    assert_eq!(restart_step(false, false, 5, 0), RestartStep::RequestStop);
}

#[test]
fn restart_starts_once_engine_is_gone() {
    assert_eq!(restart_step(true, false, 10, 100), RestartStep::Start);
    // Gone at the deadline: still a start, not a timeout.
    assert_eq!(restart_step(true, false, 100, 100), RestartStep::Start);
}

#[test]
fn restart_waits_then_times_out() {
    assert_eq!(restart_step(true, true, 99, 100), RestartStep::Wait);
    assert_eq!(restart_step(true, true, 100, 100), RestartStep::TimedOut);
    assert_eq!(restart_step(true, true, 150, 100), RestartStep::TimedOut);
}

#[test]
fn grace_deadlines() {
    assert_eq!(RESTART_GRACE_NANOS, 30_000_000_000);
    assert_eq!(RESTART_POLL_MILLIS, 50);
    assert_eq!(SHUTDOWN_GRACE_NANOS, 15_000_000_000);
    assert_eq!(grace_deadline(1_000, RESTART_GRACE_NANOS), 30_000_001_000);
    assert_eq!(grace_deadline(u64::MAX - 5, RESTART_GRACE_NANOS), u64::MAX);
    assert_eq!(grace_deadline(0, SHUTDOWN_GRACE_NANOS), 15_000_000_000);
}

#[test]
fn restart_loop_on_a_simulated_clock() {
    // The engine stops after three polls of 50 ms.
    let mut stop_sent = false;
    let mut deadline = u64::MAX;
    let mut now: u64 = 7;
    let mut polls = 0;
    let outcome = loop {
        let running = stop_sent && polls < 3;
        match restart_step(stop_sent, running, now, deadline) {
            RestartStep::RequestStop => {
                stop_sent = true;
                deadline = grace_deadline(now, RESTART_GRACE_NANOS);
            }
            RestartStep::Wait => {
                polls += 1;
                now += 50_000_000;
            }
            other => break other,
        }
    };
    assert_eq!(outcome, RestartStep::Start);
    assert_eq!(polls, 3);
}

#[test]
fn restart_loop_times_out_when_engine_hangs() {
    let mut stop_sent = false;
    let mut deadline = u64::MAX;
    let mut now: u64 = 0;
    let mut polls = 0;
    let outcome = loop {
        match restart_step(stop_sent, true, now, deadline) {
            RestartStep::RequestStop => {
                stop_sent = true;
                deadline = grace_deadline(now, RESTART_GRACE_NANOS);
            }
            RestartStep::Wait => {
                polls += 1;
                now += 50_000_000;
            }
            other => break other,
        }
    };
    assert_eq!(outcome, RestartStep::TimedOut);
    assert_eq!(polls, 600);
}

fn run(must_succeed: bool) -> Step {
    Step::Run {
        command: Command { program: "ip".to_string(), args: vec!["route".to_string()] },
        must_succeed,
    }
}

#[test]
fn step_run_ends_only_on_mandatory_failure() {
    assert!(!step_ends_run(&run(true), true));
    assert!(step_ends_run(&run(true), false));
    assert!(!step_ends_run(&run(false), true));
    assert!(!step_ends_run(&run(false), false));
}

#[test]
fn step_failure_always_ends_run() {
    let fail = Step::Fail(Error::Route("no physical interface".to_string()));
    assert!(step_ends_run(&fail, true));
    assert!(step_ends_run(&fail, false));
}

#[test]
fn daemon_config_path_prefers_account_home() {
    let account = Some("/home/alice".to_string());
    let home = Some("/root".to_string());
    assert_eq!(
        daemon_config_path(&account, 1000, 0, &home),
        "/home/alice/.config/inode-vpn/config.toml"
    );
}

#[test]
fn daemon_config_path_falls_back_to_home_for_self() {
    let home = Some("/home/bob/".to_string());
    assert_eq!(
        daemon_config_path(&None, 501, 501, &home),
        "/home/bob/.config/inode-vpn/config.toml"
    );
    // Another user's $HOME is never used.
    assert_eq!(daemon_config_path(&None, 501, 0, &home), "config.toml");
    assert_eq!(daemon_config_path(&None, 501, 501, &None), "config.toml");
}

#[test]
fn redactor_takes_password_and_username() {
    let mut r = Redactor::default();
    let creds = Credentials { username: "alice".to_string(), password: "hunter2".to_string() };
    r.add_credentials(&creds);
    assert_eq!(r.redact("user alice pw hunter2"), "user <redacted> pw <redacted>");
    // A second time changes nothing.
    r.add_credentials(&creds);
    assert_eq!(r.redact("alice:hunter2"), "<redacted>:<redacted>");
}

#[test]
fn redactor_credentials_skip_empty_password() {
    let mut r = Redactor::default();
    let creds = Credentials { username: "carol".to_string(), password: String::new() };
    r.add_credentials(&creds);
    assert_eq!(r.redact("carol here"), "<redacted> here");
}
