//! The application state of the single-pane variant: a running flag, the
//! filter text, and the repositories discovered so far.

use vstd::prelude::*;

pub use crate::model::{LocalRepo, Remote, RemoteView, RepoView};

use crate::model::{repos_view, Model};
use crate::presenter::{filtered_from, quit_spec, KeyInput, UiKey};
use crate::text::{matches_filters, pop_char, push_char, split_spaces, split_spaces_spec};
use crate::traversal::strings_view;

verus! {

/// The application state.
pub struct App {
    pub running: bool,
    pub repo_filter: String,
    pub repos: Model,
}

impl App {
    /// A fresh application: running, with no filter and no repositories.
    pub fn new() -> (a: App)
        ensures
            a.repos.wf(),
            a.running,
            a.repo_filter@.len() == 0,
            a.repos.repos@.len() == 0,
    {
        App { running: true, repo_filter: String::new(), repos: Model::new() }
    }

    /// Set running to false to quit the application.
    pub fn quit(&mut self)
        ensures
            *final(self) == (App { running: false, ..*old(self) }),
    {
        self.running = false;
    }

    /// Feed one key into the filter box: escape clears it, a character
    /// extends it, backspace shortens it.
    pub fn key(&mut self, ev: KeyInput)
        ensures
            final(self).running == old(self).running,
            final(self).repos == old(self).repos,
            match ev.code {
                UiKey::Esc => final(self).repo_filter@.len() == 0,
                UiKey::Char(c) => !quit_spec(ev) ==> final(self).repo_filter@ == old(
                    self,
                ).repo_filter@.push(c),
                UiKey::Backspace => (if old(self).repo_filter@.len() == 0 {
                    final(self).repo_filter@ == old(self).repo_filter@
                } else {
                    final(self).repo_filter@ == old(self).repo_filter@.take(
                        old(self).repo_filter@.len() - 1,
                    )
                }),
                _ => final(self).repo_filter == old(self).repo_filter,
            },
    {
        match ev.code {
            UiKey::Esc => {
                self.repo_filter = String::new();
            }
            UiKey::Char(c) => {
                if !(ev.ctrl && (c == 'c' || c == 'C')) {
                    let nf = push_char(self.repo_filter.as_str(), c);
                    self.repo_filter = nf;
                }
            }
            UiKey::Backspace => {
                let nf = pop_char(self.repo_filter.as_str());
                self.repo_filter = nf;
            }
            _ => {
            }
        }
    }

    /// Merge one discovered repository, keyed by its path.
    pub fn add_local_repo(&mut self, repo: LocalRepo)
        requires
            old(self).repos.wf(),
        ensures
            final(self).repos.wf(),
            final(self).running == old(self).running,
            final(self).repo_filter == old(self).repo_filter,
            final(self).repos.path_set() =~= old(self).repos.path_set().insert(repo@.path),
    {
        self.repos.add_local_repo(repo);
    }

    /// The repositories whose paths every word of the filter occurs in,
    /// as indices into the model, in model order.
    pub fn filtered_repos(&self) -> (r: Vec<usize>)
        requires
            self.repos.wf(),
        ensures
            r@.map_values(|u: usize| u as int) == filtered_from(
                repos_view(self.repos.repos@),
                split_spaces_spec(self.repo_filter@),
                0,
            ),
            forall|k: int| 0 <= k < r@.len() ==> (#[trigger] r@[k]) < self.repos.repos@.len(),
    {
        let ghost rv = repos_view(self.repos.repos@);
        let filters = split_spaces(self.repo_filter.as_str());
        let ghost fl = split_spaces_spec(self.repo_filter@);
        let mut idx: Vec<usize> = Vec::new();
        let mut i: usize = 0;
        while i < self.repos.repos.len()
            invariant
                i <= self.repos.repos@.len(),
                rv == repos_view(self.repos.repos@),
                rv.len() == self.repos.repos@.len(),
                fl == split_spaces_spec(self.repo_filter@),
                strings_view(filters@) == fl,
                filtered_from(rv, fl, 0) == idx@.map_values(|u: usize| u as int) + filtered_from(
                    rv,
                    fl,
                    i as int,
                ),
                forall|k: int| 0 <= k < idx@.len() ==> (#[trigger] idx@[k]) < i,
            decreases self.repos.repos@.len() - i,
        {
            proof {
                assert(filtered_from(rv, fl, i as int) == if passes(rv, fl, i as int) {
                    seq![i as int] + filtered_from(rv, fl, i + 1)
                } else {
                    filtered_from(rv, fl, i + 1)
                });
            }
            let repo = &self.repos.repos[i];
            proof {
                assert(rv[i as int] == repo@);
            }
            if matches_filters(repo.path.as_str(), &filters) {
                let ghost idx0 = idx@;
                idx.push(i);
                proof {
                    assert(idx@ =~= idx0.push(i));
                    assert(idx@.map_values(|u: usize| u as int) =~= idx0.map_values(
                        |u: usize| u as int,
                    ).push(i as int));
                    assert(idx0.map_values(|u: usize| u as int).push(i as int) + filtered_from(
                        rv,
                        fl,
                        i + 1,
                    ) =~= idx0.map_values(|u: usize| u as int) + (seq![i as int] + filtered_from(
                        rv,
                        fl,
                        i + 1,
                    )));
                }
            }
            i = i + 1;
        }
        proof {
            assert(filtered_from(rv, fl, i as int) == Seq::<int>::empty());
            assert(idx@.map_values(|u: usize| u as int) + Seq::<int>::empty() =~= idx@.map_values(
                |u: usize| u as int,
            ));
        }
        idx
    }
}

/// Shorthand for the filter test of one row, used to unfold the filtered
/// index sequence.
pub open spec fn passes(rs: Seq<RepoView>, filters: Seq<Seq<char>>, i: int) -> bool {
    crate::text::passes_filters(rs[i].path, filters)
}

} // verus!
