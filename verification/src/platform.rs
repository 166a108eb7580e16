//! The operating systems the client supports.

use vstd::prelude::*;

verus! {

/// Where the client runs: paths, service manager and route commands differ.
#[derive(Debug, Clone, Copy, PartialEq, Eq, Structural)]
pub enum Platform {
    Linux,
    Macos,
}

} // verus!
