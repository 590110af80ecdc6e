//! Request routing of the development server.
use vstd::prelude::*;

use crate::key::{has_prefix, starts_with};
use crate::text::{chars_of, push_char, push_chars};

verus! {

pub open spec fn assets_prefix() -> Seq<char> {
    seq!['/', 'a', 's', 's', 'e', 't', 's']
}

/// The request is for the asset root: its path is `/assets` itself or lies
/// below it (`/assets` followed by `/`, by a query, or by nothing).
pub open spec fn is_asset_request(pq: Seq<char>) -> bool {
    starts_with(pq, assets_prefix()) && (pq.len() == 7 || pq[7] == '/' || pq[7] == '?')
}

/// The path and query under the asset root: what follows `/assets`, with a
/// leading `/` added where it has none.
pub open spec fn asset_root_path(pq: Seq<char>) -> Seq<char> {
    let rest = pq.skip(7);
    if rest.len() > 0 && rest[0] == '/' {
        rest
    } else {
        seq!['/'] + rest
    }
}

/// Where a request is served from: a path and query under `/assets` is
/// served from the asset root, at the returned path; any other from the
/// public directory (`None`).
pub fn asset_request_path(path_and_query: &str) -> (r: Option<String>)
    ensures
        is_asset_request(path_and_query@) ==> (r matches Some(p) && p@ == asset_root_path(
            path_and_query@,
        )),
        !is_asset_request(path_and_query@) ==> r is None,
{
    let cs = chars_of(path_and_query);
    let prefix = ['/', 'a', 's', 's', 'e', 't', 's'];
    assert(prefix@ == assets_prefix());
    if !has_prefix(&cs, prefix.as_slice()) {
        return None;
    }
    let n = cs.len();
    if n > 7 && cs[7] != '/' && cs[7] != '?' {
        return None;
    }
    let mut rest = String::new();
    if n == 7 || cs[7] != '/' {
        push_char(&mut rest, '/');
    }
    push_chars(&mut rest, cs.as_slice(), 7, n);
    assert(cs@.subrange(7, n as int) == cs@.skip(7));
    Some(rest)
}

} // verus!
