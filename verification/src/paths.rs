//! File system paths as text (Unix): parents and joins.

use vstd::prelude::*;

use crate::text::{chars_of, opt_view, string_of};

verus! {

/// `std::path::Path::parent` of a path: the path without its last component,
/// none for a root or the empty path.
pub uninterp spec fn path_parent(p: Seq<char>) -> Option<Seq<char>>;

/// Calls `Path::parent`; the result is a prefix of a `&str`, so its text is
/// kept exactly.
#[verifier::external_body]
pub(crate) fn parent_of(p: &str) -> (r: Option<String>)
    ensures
        opt_view(r) == path_parent(p@),
{
    std::path::Path::new(p).parent().map(|d| d.to_string_lossy().into_owned())
}

/// `Path::join` on Unix: an absolute `name` replaces `base`; otherwise
/// `name` follows `base`, after a `/` when `base` is non-empty and does not
/// end in one.
pub open spec fn path_join(base: Seq<char>, name: Seq<char>) -> Seq<char> {
    if name.len() > 0 && name[0] == '/' {
        name
    } else if base.len() == 0 || base.last() == '/' {
        base + name
    } else {
        base + seq!['/'] + name
    }
}

pub fn join_path(base: &str, name: &str) -> (r: String)
    ensures
        r@ == path_join(base@, name@),
{
    let n = chars_of(name);
    if n.len() > 0 && n[0] == '/' {
        return string_of(n.as_slice());
    }
    let b = chars_of(base);
    assert(b@ == base@);
    if b.len() == 0 || b[b.len() - 1] == '/' {
        String::from_str(base).concat(name)
    } else {
        let r = String::from_str(base).concat("/").concat(name);
        proof {
            reveal_strlit("/");
            assert(r@ =~= base@ + seq!['/'] + name@);
        }
        r
    }
}

} // verus!
