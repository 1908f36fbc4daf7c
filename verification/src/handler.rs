//! Applying worker events to the model.

use vstd::prelude::*;

use crate::filesystem;
use crate::model::{repos_view, Model};

verus! {

/// Handle one filesystem event: a discovered repository enters the model,
/// keyed by its path.
pub fn handle_filesystem_event(filesystem_event: filesystem::Event, model: &mut Model)
    requires
        old(model).wf(),
    ensures
        final(model).wf(),
        match filesystem_event {
            filesystem::Event::LocalRepo(repo) => {
                &&& final(model).path_set() =~= old(model).path_set().insert(repo@.path)
                &&& forall|i: int|
                    0 <= i < final(model).repos@.len() && (#[trigger] final(model).repos@[i]@.path)
                        == repo@.path ==> final(model).repos@[i]@ == repo@
                &&& forall|i: int|
                    0 <= i < final(model).repos@.len() && (#[trigger] final(model).repos@[i]@.path)
                        != repo@.path ==> repos_view(old(model).repos@).contains(
                        final(model).repos@[i]@,
                    )
            },
        },
{
    match filesystem_event {
        filesystem::Event::LocalRepo(repo) => {
            model.add_local_repo(repo);
        }
    }
}

} // verus!
