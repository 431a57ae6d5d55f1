//! Document identifiers relative to a project root.

use vstd::prelude::*;

verus! {

/// Whether `uri` lies under `root`: `root` is a prefix of it.
pub open spec fn under_root(uri: Seq<char>, root: Seq<char>) -> bool {
    root.len() <= uri.len() && uri.subrange(0, root.len() as int) == root
}

/// `uri` with the prefix `root` taken off.
pub open spec fn relative(uri: Seq<char>, root: Seq<char>) -> Seq<char> {
    uri.subrange(root.len() as int, uri.len() as int)
}

/// Relies on `str::starts_with` with a `&str` pattern: whether `prefix`
/// is a prefix of `s`.
#[verifier::external_body]
fn str_starts_with(s: &str, prefix: &str) -> (r: bool)
    ensures
        r == under_root(s@, prefix@),
{
    s.starts_with(prefix)
}

/// Whether `uri` lies under `root`.
pub fn is_under_root(uri: &str, root: &str) -> (r: bool)
    ensures
        r == under_root(uri@, root@),
{
    str_starts_with(uri, root)
}

/// The name of `uri` relative to `root`, when it lies under `root`.
pub fn relative_to(uri: &str, root: &str) -> (r: Option<String>)
    ensures
        r is Some <==> under_root(uri@, root@),
        r matches Some(s) ==> s@ == relative(uri@, root@),
{
    if !str_starts_with(uri, root) {
        return None;
    }
    let from = root.unicode_len();
    let to = uri.unicode_len();
    let rest = uri.substring_char(from, to);
    Some(rest.to_owned())
}

} // verus!
