//! The H3C data-plane framing, and the plain values exchanged with
//! libopenconnect.

use vstd::prelude::*;

verus! {

/// Public libopenconnect API version targeted (upstream v9.x, API 5.8).
pub const OPENCONNECT_API_VERSION_MAJOR: u32 = 5;

pub const OPENCONNECT_API_VERSION_MINOR: u32 = 8;

/// IPv4 payload frame (`01 00 | len BE | ipv4 packet`).
pub const TYPE_IPV4: u16 = 1;

/// Keepalive request (`02 00 00 00`).
pub const TYPE_KEEPALIVE: u16 = 2;

/// Command byte that cancels the openconnect main loop.
pub const OC_CMD_CANCEL: u8 = 120;

/// Command byte that pauses the main loop (it reconnects on the next call).
pub const OC_CMD_PAUSE: u8 = 112;

pub const OC_CMD_DETACH: u8 = 100;

pub const OC_CMD_STATS: u8 = 115;

/// One H3C frame: `type` (u16, little-endian), `len` (u16, big-endian),
/// then `len` payload bytes.
#[derive(Debug, Clone, PartialEq, Eq)]
pub struct H3cFrame {
    pub frame_type: u16,
    pub payload: Vec<u8>,
}

/// The bytes of a frame on the wire. The length field holds the payload
/// length modulo 2^16.
pub open spec fn wire_bytes(frame_type: u16, payload: Seq<u8>) -> Seq<u8> {
    let len = payload.len() % 65536;
    seq![
        (frame_type % 256) as u8,
        (frame_type / 256) as u8,
        (len / 256) as u8,
        (len % 256) as u8,
    ] + payload
}

impl H3cFrame {
    pub fn new_ipv4(payload: Vec<u8>) -> (r: H3cFrame)
        ensures
            r.frame_type == TYPE_IPV4,
            r.payload@ == payload@,
    {
        H3cFrame { frame_type: TYPE_IPV4, payload }
    }

    pub fn new_keepalive() -> (r: H3cFrame)
        ensures
            r.frame_type == TYPE_KEEPALIVE,
            r.payload@.len() == 0,
    {
        H3cFrame { frame_type: TYPE_KEEPALIVE, payload: Vec::new() }
    }

    /// Serializes exactly as observed on the wire: `type` little-endian,
    /// `len` big-endian.
    pub fn to_wire(&self) -> (r: Vec<u8>)
        ensures
            r@ == wire_bytes(self.frame_type, self.payload@),
    {
        let n = self.payload.len();
        let len16 = #[verifier::truncate] (n as u16);
        assert(len16 == n % 65536) by (bit_vector)
            requires
                len16 == #[verifier::truncate] (n as u16),
        ;
        let mut out: Vec<u8> = Vec::new();
        out.push((self.frame_type % 256) as u8);
        out.push((self.frame_type / 256) as u8);
        out.push((len16 / 256) as u8);
        out.push((len16 % 256) as u8);
        let ghost head = out@;
        let mut i: usize = 0;
        while i < n
            invariant
                n == self.payload@.len(),
                i <= n,
                out@ == head + self.payload@.take(i as int),
            decreases n - i,
        {
            out.push(self.payload[i]);
            i = i + 1;
            assert(out@ =~= head + self.payload@.take(i as int));
        }
        assert(self.payload@.take(n as int) =~= self.payload@);
        assert(out@ =~= wire_bytes(self.frame_type, self.payload@));
        out
    }
}

/// A frame's wire form is four header bytes longer than its payload, and a
/// payload of at most 65535 bytes is announced with its exact length.
pub proof fn law_wire_length(frame_type: u16, payload: Seq<u8>)
    ensures
        wire_bytes(frame_type, payload).len() == payload.len() + 4,
        wire_bytes(frame_type, payload).skip(4) == payload,
        payload.len() <= 65535 ==> wire_bytes(frame_type, payload)[2] as int * 256
            + wire_bytes(frame_type, payload)[3] as int == payload.len(),
        wire_bytes(frame_type, payload)[0] as int + wire_bytes(frame_type, payload)[1] as int * 256
            == frame_type as int,
{
    assert(wire_bytes(frame_type, payload).skip(4) =~= payload);
}

/// Traffic counters reported by libopenconnect.
#[derive(Debug, Clone, Copy)]
pub struct OcStats {
    pub tx_pkts: u64,
    pub tx_bytes: u64,
    pub rx_pkts: u64,
    pub rx_bytes: u64,
}

/// libopenconnect's progress levels.
pub const PRG_ERR: i32 = 0;

pub const PRG_INFO: i32 = 1;

pub const PRG_DEBUG: i32 = 2;

pub const PRG_TRACE: i32 = 3;

/// The log level a progress message is written at.
#[derive(Debug, Clone, Copy, PartialEq, Eq, Structural)]
pub enum LogLevel {
    Error,
    Info,
    Debug,
    Trace,
}

/// Errors, debug and trace messages keep their level; everything else is
/// information.
pub fn log_level(level: i32) -> (r: LogLevel)
    ensures
        r == (if level == PRG_ERR {
            LogLevel::Error
        } else if level == PRG_DEBUG {
            LogLevel::Debug
        } else if level == PRG_TRACE {
            LogLevel::Trace
        } else {
            LogLevel::Info
        }),
{
    if level == PRG_ERR {
        LogLevel::Error
    } else if level == PRG_DEBUG {
        LogLevel::Debug
    } else if level == PRG_TRACE {
        LogLevel::Trace
    } else {
        LogLevel::Info
    }
}

/// A login form field the client fills in.
#[derive(Debug, Clone, Copy, PartialEq, Eq, Structural)]
pub enum AuthField {
    Username,
    Password,
}

/// The field an option of the login form stands for; other options are
/// left as the gateway sent them.
pub fn auth_field(name: &str) -> (r: Option<AuthField>)
    ensures
        r == (if name@ == "username"@ {
            Some(AuthField::Username)
        } else if name@ == "password"@ {
            Some(AuthField::Password)
        } else {
            None
        }),
{
    if crate::text::eq_str(name, "username") {
        Some(AuthField::Username)
    } else if crate::text::eq_str(name, "password") {
        Some(AuthField::Password)
    } else {
        None
    }
}

/// What to do with a server certificate that failed validation.
#[derive(Debug, Clone, Copy, PartialEq, Eq, Structural)]
pub enum CertVerdict {
    /// No pin is configured: the certificate is rejected.
    Reject,
    /// Accept it only if it matches the configured pin.
    CheckPin,
}

pub fn cert_verdict(servercert: &str) -> (r: CertVerdict)
    ensures
        r == (if servercert@.len() == 0 {
            CertVerdict::Reject
        } else {
            CertVerdict::CheckPin
        }),
{
    if servercert.unicode_len() == 0 {
        CertVerdict::Reject
    } else {
        CertVerdict::CheckPin
    }
}

} // verus!
