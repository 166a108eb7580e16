//! The vpnc-script replacement's entry: which phases it handles.

use vstd::prelude::*;

use crate::error::{error_detail, Error};
use crate::text::eq_str;

verus! {

/// The vpnc-script phases handled.
pub const SUPPORTED_REASONS: [&'static str; 5] = [
    "pre-init",
    "connect",
    "reconnect",
    "attempt-reconnect",
    "disconnect",
];

pub open spec fn supported_reason(r: Seq<char>) -> bool {
    r == "pre-init"@ || r == "connect"@ || r == "reconnect"@ || r == "attempt-reconnect"@ || r
        == "disconnect"@
}

/// Accepts one vpnc-script phase; any other reason is an error.
pub fn run(reason: &str) -> (r: Result<(), Error>)
    ensures
        match r {
            Ok(_) => supported_reason(reason@),
            Err(e) => !supported_reason(reason@) && e is Route && error_detail(e)
                == "unsupported vpnc-script reason: "@ + reason@,
        },
{
    if eq_str(reason, "pre-init") || eq_str(reason, "connect") || eq_str(reason, "reconnect")
        || eq_str(reason, "attempt-reconnect") || eq_str(reason, "disconnect") {
        Ok(())
    } else {
        Err(Error::Route(String::from_str("unsupported vpnc-script reason: ").concat(reason)))
    }
}

} // verus!
