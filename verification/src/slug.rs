//! The slug resolver: a linear scan of the project list.

use vstd::prelude::*;

use crate::errors::ProjectNotFoundError;
use crate::project::{bytes_clone, bytes_eq, list_view, Project, ProjectView};

verus! {

/// The slug of the first entry whose id equals `id`, if any.
pub open spec fn slug_of(ps: Seq<ProjectView>, id: Seq<u8>) -> Option<Seq<u8>>
    decreases ps.len(),
{
    if ps.len() == 0 {
        None
    } else if ps[0].id == id {
        Some(ps[0].slug)
    } else {
        slug_of(ps.drop_first(), id)
    }
}

/// Scan the list in order and return the slug of the first entry whose
/// id equals `project_id` exactly; fail if none matches.
pub fn get_slug(project_id: &Vec<u8>, projects: &Vec<Project>) -> (r: Result<
    Vec<u8>,
    ProjectNotFoundError,
>)
    ensures
        match r {
            Ok(s) => slug_of(list_view(projects@), project_id@) == Some(s@),
            Err(_) => slug_of(list_view(projects@), project_id@) is None,
        },
{
    let n = projects.len();
    let mut i: usize = 0;
    assert(list_view(projects@).skip(0) =~= list_view(projects@));
    while i < n
        invariant
            n == projects@.len(),
            i <= n,
            slug_of(list_view(projects@), project_id@) == slug_of(
                list_view(projects@).skip(i as int),
                project_id@,
            ),
        decreases n - i,
    {
        let ghost rest = list_view(projects@).skip(i as int);
        assert(rest[0] == projects@[i as int]@);
        if bytes_eq(&projects[i].id, project_id) {
            let s = bytes_clone(&projects[i].slug);
            return Ok(s);
        }
        assert(rest.drop_first() =~= list_view(projects@).skip(i + 1 as int));
        i += 1;
    }
    assert(list_view(projects@).skip(n as int) =~= Seq::<ProjectView>::empty());
    Err(ProjectNotFoundError)
}

} // verus!
