//! The IPC contract: newline-delimited JSON-RPC 2.0 over a Unix domain
//! socket. The messages carry JSON values through without reading them.

use vstd::prelude::*;

use crate::error::{error_detail, Error};
use crate::platform::Platform;
use crate::text::{decimal, decimal_string};

verus! {

/// `serde_json::Value`: request parameters and results are carried through
/// as opaque values.
#[verifier::external_type_specification]
#[verifier::external_body]
pub struct ExJsonValue(serde_json::Value);

pub const PROTOCOL_VERSION: &'static str = "2.0";

pub open spec fn socket_dir(p: Platform) -> Seq<char> {
    match p {
        Platform::Macos => "/var/run/inode-vpn"@,
        Platform::Linux => "/run/inode-vpn"@,
    }
}

/// `<run dir>/<uid>/daemon.sock`: `/var/run/inode-vpn` on macOS,
/// `/run/inode-vpn` on Linux.
pub fn socket_path(platform: Platform, uid: u32) -> (r: String)
    ensures
        r@ == socket_dir(platform) + "/"@ + decimal(uid as nat) + "/daemon.sock"@,
{
    let dir = match platform {
        Platform::Macos => String::from_str("/var/run/inode-vpn"),
        Platform::Linux => String::from_str("/run/inode-vpn"),
    };
    dir.concat("/").concat(decimal_string(uid as u64).as_str()).concat("/daemon.sock")
}

/// `serde_json::Value::Null`; nothing is claimed of it.
#[verifier::external_body]
fn json_null() -> serde_json::Value {
    serde_json::Value::Null
}

/// A call from the CLI to the daemon.
#[derive(Debug)]
pub struct Request {
    pub jsonrpc: String,
    pub id: u64,
    pub method: String,
    pub params: serde_json::Value,
}

/// The daemon's answer to a request: a result or an error.
#[derive(Debug)]
pub struct Response {
    pub jsonrpc: String,
    pub id: u64,
    pub result: Option<serde_json::Value>,
    pub error: Option<RpcError>,
}

#[derive(Debug, Clone)]
pub struct RpcError {
    pub code: i32,
    pub message: String,
}

/// A notification pushed to subscribers.
#[derive(Debug)]
pub struct Event {
    pub jsonrpc: String,
    pub method: String,
    pub params: serde_json::Value,
}

impl Request {
    /// A request without parameters (JSON `null`; not stated here).
    pub fn new(id: u64, method: &str) -> (r: Request)
        ensures
            r.jsonrpc@ == "2.0"@,
            r.id == id,
            r.method@ == method@,
    {
        Request {
            jsonrpc: String::from_str(PROTOCOL_VERSION),
            id,
            method: String::from_str(method),
            params: json_null(),
        }
    }

    pub fn with_params(id: u64, method: &str, params: serde_json::Value) -> (r: Request)
        ensures
            r.jsonrpc@ == "2.0"@,
            r.id == id,
            r.method@ == method@,
            r.params == params,
    {
        Request { jsonrpc: String::from_str(PROTOCOL_VERSION), id, method: String::from_str(method), params }
    }
}

impl Response {
    pub fn ok(id: u64, result: serde_json::Value) -> (r: Response)
        ensures
            r.jsonrpc@ == "2.0"@,
            r.id == id,
            r.result == Some(result),
            r.error is None,
    {
        Response { jsonrpc: String::from_str(PROTOCOL_VERSION), id, result: Some(result), error: None }
    }

    pub fn err(id: u64, code: i32, message: String) -> (r: Response)
        ensures
            r.jsonrpc@ == "2.0"@,
            r.id == id,
            r.result is None,
            r.error is Some,
            r.error->0.code == code,
            r.error->0.message@ == message@,
    {
        Response {
            jsonrpc: String::from_str(PROTOCOL_VERSION),
            id,
            result: None,
            error: Some(RpcError { code, message }),
        }
    }
}

impl Event {
    pub fn new(method: &str, params: serde_json::Value) -> (r: Event)
        ensures
            r.jsonrpc@ == "2.0"@,
            r.method@ == method@,
            r.params == params,
    {
        Event { jsonrpc: String::from_str(PROTOCOL_VERSION), method: String::from_str(method), params }
    }
}

/// One message on the wire: its JSON text and a newline.
pub fn frame_line(json: Vec<u8>) -> (r: Vec<u8>)
    ensures
        r@ == json@.push(10u8),
{
    let mut line = json;
    line.push(10u8);
    line
}

/// What reading a line gives: the line, or an error when the peer closed
/// the connection (nothing was read).
pub fn line_read(n: usize, line: String) -> (r: Result<String, Error>)
    ensures
        n == 0 ==> r is Err && r->Err_0 is Ipc && error_detail(r->Err_0) == "connection closed"@,
        n != 0 ==> r is Ok && r->Ok_0@ == line@,
{
    if n == 0 {
        return Err(Error::Ipc(String::from_str("connection closed")));
    }
    Ok(line)
}

} // verus!
