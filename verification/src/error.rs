//! The error type shared by every part of the client.

use vstd::prelude::*;

verus! {

/// `std::io::Error`, carried through as an opaque value.
#[verifier::external_type_specification]
#[verifier::external_body]
pub struct ExIoError(std::io::Error);

/// What can go wrong, by the part of the client where it went wrong.
#[derive(Debug)]
pub enum Error {
    Config(String),
    Ipc(String),
    OpenConnect(String),
    Route(String),
    Io(std::io::Error),
}

/// The prefix with which each kind of error is displayed.
pub open spec fn error_prefix(e: Error) -> Seq<char> {
    match e {
        Error::Config(_) => "config error: "@,
        Error::Ipc(_) => "ipc error: "@,
        Error::OpenConnect(_) => "openconnect error: "@,
        Error::Route(_) => "route setup failed: "@,
        Error::Io(_) => "io error: "@,
    }
}

/// The detail carried by an error (for all but I/O errors).
pub open spec fn error_detail(e: Error) -> Seq<char> {
    match e {
        Error::Config(m) => m@,
        Error::Ipc(m) => m@,
        Error::OpenConnect(m) => m@,
        Error::Route(m) => m@,
        Error::Io(_) => Seq::empty(),
    }
}

impl Error {
    /// The error as it is displayed: its prefix, then its detail.
    pub fn message(&self) -> (r: String)
        ensures
            !(self is Io) ==> r@ == error_prefix(*self) + error_detail(*self),
            self is Io ==> r@.len() >= error_prefix(*self).len() && r@.take(
                error_prefix(*self).len() as int,
            ) == error_prefix(*self),
    {
        match self {
            Error::Config(m) => String::from_str("config error: ").concat(m.as_str()),
            Error::Ipc(m) => String::from_str("ipc error: ").concat(m.as_str()),
            Error::OpenConnect(m) => String::from_str("openconnect error: ").concat(m.as_str()),
            Error::Route(m) => String::from_str("route setup failed: ").concat(m.as_str()),
            Error::Io(e) => {
                let d = io_error_text(e);
                let r = String::from_str("io error: ").concat(d.as_str());
                assert(r@.take(error_prefix(*self).len() as int) =~= error_prefix(*self));
                r
            },
        }
    }
}

/// `std::io::Error`'s `Display` text; nothing is claimed of it.
#[verifier::external_body]
fn io_error_text(e: &std::io::Error) -> String {
    e.to_string()
}

} // verus!
