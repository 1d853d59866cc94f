//! Resolve a Sentry project id to its slug.
//!
//! The library holds the verified logic of the tool: configuration
//! resolution, the JSON codec for the project list (the cache format and
//! the API response body), the cache-or-fetch decision machine, and the
//! slug lookup itself.  All values crossing the boundary are plain bytes;
//! the surrounding binary performs the actual file and network I/O and
//! feeds the outcomes back in as events.

pub mod config;
pub mod errors;
pub mod json;
pub mod project;
pub mod provider;
pub mod slug;

use vstd::prelude::*;

verus! {

/// The bytes of `projects.json`: the fixed cache file name, the same
/// whichever organisation is configured.
pub open spec fn cache_file_name_view() -> Seq<u8> {
    seq![112u8, 114, 111, 106, 101, 99, 116, 115, 46, 106, 115, 111, 110]
}

/// The bytes of the fixed cache file name, `projects.json`.
pub fn cache_file_name() -> (r: Vec<u8>)
    ensures
        r@ == cache_file_name_view(),
{
    let mut v: Vec<u8> = Vec::new();
    v.push(112);  // p
    v.push(114);  // r
    v.push(111);  // o
    v.push(106);  // j
    v.push(101);  // e
    v.push(99);  // c
    v.push(116);  // t
    v.push(115);  // s
    v.push(46);  // .
    v.push(106);  // j
    v.push(115);  // s
    v.push(111);  // o
    v.push(110);  // n
    assert(v@ =~= cache_file_name_view());
    v
}

} // verus!
