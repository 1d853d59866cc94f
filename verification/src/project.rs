//! The project record and byte-string helpers.
//!
//! A project is a pair of an opaque identifier and a human-readable slug.
//! Both are held as UTF-8 bytes: every comparison the tool makes is exact
//! byte equality, and the wire and cache formats are byte streams.

use vstd::prelude::*;

verus! {

/// One entry of the organisation's project list.
pub struct Project {
    /// Opaque identifier, matched exactly.
    pub id: Vec<u8>,
    /// Human-readable, URL-safe name.
    pub slug: Vec<u8>,
}

/// Mathematical image of a `Project`: the two byte strings.
#[verifier::ext_equal]
pub struct ProjectView {
    pub id: Seq<u8>,
    pub slug: Seq<u8>,
}

impl View for Project {
    type V = ProjectView;

    open spec fn view(&self) -> ProjectView {
        ProjectView { id: self.id@, slug: self.slug@ }
    }
}

/// The image of a whole project list.
pub open spec fn list_view(ps: Seq<Project>) -> Seq<ProjectView> {
    ps.map(|i: int, p: Project| p@)
}

/// Exact equality of two byte strings.
pub fn bytes_eq(a: &Vec<u8>, b: &Vec<u8>) -> (r: bool)
    ensures
        r == (a@ == b@),
{
    if a.len() != b.len() {
        assert(a@ != b@) by {
            assert(a@.len() != b@.len());
        }
        return false;
    }
    let n = a.len();
    let mut i: usize = 0;
    while i < n
        invariant
            n == a@.len() == b@.len(),
            i <= n,
            forall|k: int| 0 <= k < i ==> a@[k] == b@[k],
        decreases n - i,
    {
        if a[i] != b[i] {
            return false;
        }
        i += 1;
    }
    assert(a@ =~= b@);
    true
}

/// A fresh copy of a byte string.
pub fn bytes_clone(a: &Vec<u8>) -> (r: Vec<u8>)
    ensures
        r@ == a@,
{
    let mut r: Vec<u8> = Vec::new();
    let n = a.len();
    let mut i: usize = 0;
    while i < n
        invariant
            n == a@.len(),
            i <= n,
            r@ == a@.subrange(0, i as int),
        decreases n - i,
    {
        r.push(a[i]);
        assert(r@ =~= a@.subrange(0, i + 1 as int));
        i += 1;
    }
    assert(r@ =~= a@);
    r
}

} // verus!
