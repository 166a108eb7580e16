//! How the daemon answers its IPC clients: who may talk to it, which
//! requests it knows, and the JSON-RPC errors it answers with.

use vstd::prelude::*;

use crate::error::{error_detail, error_prefix, Error};
use crate::ipc::Response;
use crate::text::{chars_of, eq_str, string_of, trim, trim_chars};

verus! {

/// The engine did not accept a start (one is already running).
pub const START_FAILED: i32 = -32001;

/// The configuration could not be loaded.
pub const CONFIG_FAILED: i32 = -32002;

/// A restart found the engine still running after its grace period.
pub const RESTART_TIMEOUT: i32 = -32003;

/// JSON-RPC: the method does not exist.
pub const METHOD_NOT_FOUND: i32 = -32601;

/// JSON-RPC: the request is not valid JSON.
pub const PARSE_ERROR: i32 = -32700;

/// The requests the daemon serves.
#[derive(Debug, Clone, Copy, PartialEq, Eq, Structural)]
pub enum Method {
    Ping,
    Status,
    Start,
    Stop,
    Restart,
    /// Turns the connection into an event stream.
    Subscribe,
    Unknown,
}

pub open spec fn method_of_name(name: Seq<char>) -> Method {
    if name == "ping"@ {
        Method::Ping
    } else if name == "status"@ {
        Method::Status
    } else if name == "start"@ {
        Method::Start
    } else if name == "stop"@ {
        Method::Stop
    } else if name == "restart"@ {
        Method::Restart
    } else if name == "subscribe"@ {
        Method::Subscribe
    } else {
        Method::Unknown
    }
}

pub fn method_of(name: &str) -> (r: Method)
    ensures
        r == method_of_name(name@),
{
    if eq_str(name, "ping") {
        Method::Ping
    } else if eq_str(name, "status") {
        Method::Status
    } else if eq_str(name, "start") {
        Method::Start
    } else if eq_str(name, "stop") {
        Method::Stop
    } else if eq_str(name, "restart") {
        Method::Restart
    } else if eq_str(name, "subscribe") {
        Method::Subscribe
    } else {
        Method::Unknown
    }
}

/// Only root and the user the daemon serves may talk to it.
pub fn peer_allowed(peer_uid: u32, target_uid: u32) -> (r: bool)
    ensures
        r == (peer_uid == 0 || peer_uid == target_uid),
{
    peer_uid == 0 || peer_uid == target_uid
}

/// A request line with its surrounding whitespace removed; none for a blank
/// line, which is skipped.
pub fn request_line(line: &str) -> (r: Option<String>)
    ensures
        match r {
            Some(t) => t@ == trim(line@) && t@.len() > 0,
            None => trim(line@).len() == 0,
        },
{
    let c = chars_of(line);
    let t = trim_chars(c.as_slice());
    if t.len() == 0 {
        None
    } else {
        Some(string_of(t.as_slice()))
    }
}

/// An error answer whose message is the error as displayed.
pub open spec fn answers_error(r: Response, id: u64, code: i32, e: Error) -> bool {
    &&& r.jsonrpc@ == "2.0"@
    &&& r.id == id
    &&& r.result is None
    &&& r.error is Some
    &&& r.error->0.code == code
    &&& !(e is Io) ==> r.error->0.message@ == error_prefix(e) + error_detail(e)
}

/// `start` (or `restart`) was not accepted by the engine.
pub fn start_failed(id: u64, e: &Error) -> (r: Response)
    ensures
        answers_error(r, id, START_FAILED, *e),
{
    Response::err(id, START_FAILED, e.message())
}

/// `start` (or `restart`) could not load the configuration.
pub fn config_failed(id: u64, e: &Error) -> (r: Response)
    ensures
        answers_error(r, id, CONFIG_FAILED, *e),
{
    Response::err(id, CONFIG_FAILED, e.message())
}

/// `restart` gave up waiting for the engine to stop.
pub fn restart_timed_out(id: u64) -> (r: Response)
    ensures
        r.jsonrpc@ == "2.0"@,
        r.id == id && r.result is None && r.error is Some,
        r.error->0.code == RESTART_TIMEOUT,
        r.error->0.message@ == "engine did not stop in time"@,
{
    Response::err(id, RESTART_TIMEOUT, String::from_str("engine did not stop in time"))
}

/// How long a restart waits for the running engine to stop.
pub const RESTART_GRACE_NANOS: u64 = 30_000_000_000;

/// How long a restart sleeps between two looks at the engine.
pub const RESTART_POLL_MILLIS: u64 = 50;

/// The next thing a restart does.
#[derive(Debug, Clone, Copy, PartialEq, Eq, Structural)]
pub enum RestartStep {
    /// Ask the running engine to stop (and fix the deadline).
    RequestStop,
    /// Sleep a moment, then look again.
    Wait,
    /// The engine is gone: start a new one.
    Start,
    /// The engine still runs at the deadline: answer `RESTART_TIMEOUT`.
    TimedOut,
}

/// A restart first asks the engine to stop; then it starts a new one once
/// the old one is gone, gives up when the deadline has come, and waits
/// otherwise. An engine that is gone is started even at the deadline.
pub open spec fn restart_step_of(
    stop_sent: bool,
    engine_running: bool,
    now_nanos: u64,
    deadline_nanos: u64,
) -> RestartStep {
    if !stop_sent {
        RestartStep::RequestStop
    } else if !engine_running {
        RestartStep::Start
    } else if now_nanos >= deadline_nanos {
        RestartStep::TimedOut
    } else {
        RestartStep::Wait
    }
}

/// The next step of a restart: `stop_sent` says whether the stop was
/// asked for, `engine_running` whether the old engine still runs.
pub fn restart_step(stop_sent: bool, engine_running: bool, now_nanos: u64, deadline_nanos: u64) -> (r:
    RestartStep)
    ensures
        r == restart_step_of(stop_sent, engine_running, now_nanos, deadline_nanos),
        !stop_sent ==> r is RequestStop,
        stop_sent && !engine_running ==> r is Start,
        stop_sent && engine_running && now_nanos >= deadline_nanos ==> r is TimedOut,
        stop_sent && engine_running && now_nanos < deadline_nanos ==> r is Wait,
{
    if !stop_sent {
        RestartStep::RequestStop
    } else if !engine_running {
        RestartStep::Start
    } else if now_nanos >= deadline_nanos {
        RestartStep::TimedOut
    } else {
        RestartStep::Wait
    }
}

/// How long the daemon, when it shuts down, waits for the engine to stop.
pub const SHUTDOWN_GRACE_NANOS: u64 = 15_000_000_000;

/// The deadline of a wait for the engine that begins at `now_nanos` and
/// lasts `grace_nanos`: that much later, or the end of the clock.
pub fn grace_deadline(now_nanos: u64, grace_nanos: u64) -> (r: u64)
    ensures
        r == if now_nanos + grace_nanos <= u64::MAX {
            (now_nanos + grace_nanos) as u64
        } else {
            u64::MAX
        },
{
    now_nanos.saturating_add(grace_nanos)
}

/// A restart never starts an engine while the old one still runs, and it
/// only gives up once the deadline has come.
pub proof fn law_restart_waits_for_engine(
    stop_sent: bool,
    engine_running: bool,
    now_nanos: u64,
    deadline_nanos: u64,
)
    ensures
        restart_step_of(stop_sent, engine_running, now_nanos, deadline_nanos) is Start ==> stop_sent
            && !engine_running,
        restart_step_of(stop_sent, engine_running, now_nanos, deadline_nanos) is TimedOut
            ==> engine_running && now_nanos >= deadline_nanos,
{
}

/// A request for a method the daemon does not serve.
pub fn method_not_found(id: u64, method: &str) -> (r: Response)
    ensures
        r.jsonrpc@ == "2.0"@,
        r.id == id && r.result is None && r.error is Some,
        r.error->0.code == METHOD_NOT_FOUND,
        r.error->0.message@ == "method not found: "@ + method@,
{
    Response::err(id, METHOD_NOT_FOUND, String::from_str("method not found: ").concat(method))
}

/// A line that is not a request; answered with id 0, as its own id is
/// unknown.
pub fn parse_error(detail: &str) -> (r: Response)
    ensures
        r.jsonrpc@ == "2.0"@,
        r.id == 0 && r.result is None && r.error is Some,
        r.error->0.code == PARSE_ERROR,
        r.error->0.message@ == "parse error: "@ + detail@,
{
    Response::err(0, PARSE_ERROR, String::from_str("parse error: ").concat(detail))
}

} // verus!
