//! Endpoint URLs: a path appended to a base URL once.

use vstd::prelude::*;
use vstd::string::*;

use crate::text::{ends_with, stripped_end, trim_end_char};

verus! {

/// `base` without trailing slashes and with `path` at its end, whether or not
/// it was there already.
pub open spec fn endpoint_of(base: Seq<char>, path: Seq<char>) -> Seq<char> {
    let trimmed = stripped_end(base, '/');
    if path.is_suffix_of(trimmed) {
        trimmed
    } else {
        trimmed + path
    }
}

pub fn endpoint(base: &str, path: &str) -> (r: String)
    ensures
        r@ == endpoint_of(base@, path@),
{
    let trimmed = trim_end_char(base, '/');
    if ends_with(&trimmed, path) {
        trimmed
    } else {
        trimmed.concat(path)
    }
}

/// Appending a path that does not end with a slash a second time changes
/// nothing.
pub proof fn endpoint_idempotent(base: Seq<char>, path: Seq<char>)
    requires
        path.len() > 0,
        path.last() != '/',
    ensures
        endpoint_of(endpoint_of(base, path), path) == endpoint_of(base, path),
        path.is_suffix_of(endpoint_of(base, path)),
{
    let once = endpoint_of(base, path);
    let trimmed = stripped_end(base, '/');
    if path.is_suffix_of(trimmed) {
    } else {
        assert(path =~= once.subrange(once.len() - path.len(), once.len() as int));
    }
    assert(once.last() == path.last());
    assert(stripped_end(once, '/') == once);
}

/// A trailing slash on the base makes no difference.
pub proof fn endpoint_ignores_trailing_slash(base: Seq<char>, path: Seq<char>)
    ensures
        endpoint_of(base.push('/'), path) == endpoint_of(base, path),
{
    assert(base.push('/').drop_last() =~= base);
}

} // verus!
