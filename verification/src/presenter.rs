//! The presentation model: the discovered repositories, the filter the
//! user types, the selection, and how keys move it.
//!
//! Rendering and raw terminal events stay outside the library; they hand
//! in plain key values and read back a [`ViewPlan`].

use vstd::math::min;
use vstd::prelude::*;

use crate::model::{eq_str, lemma_lt_seq_irreflexive, lt_seq, repos_view, LocalRepo, Model, RepoView};
use crate::text::{
    is_prefix, matches_filters, passes_filters, pop_char, push_char, split_spaces,
    split_spaces_spec, starts_with,
};
use crate::traversal::strings_view;

verus! {

/// The selected repository: its path, and the row of the visible window
/// it sits on.
pub struct Selected {
    pub path: String,
    pub u_view: usize,
}

impl Selected {
    pub fn new(path: String, u_view: usize) -> (s: Selected)
        ensures
            s.path == path,
            s.u_view == u_view,
    {
        Selected { path, u_view }
    }
}

/// Clamping into `[0, limit)`.
pub open spec fn clamp_spec(i: int, limit: int) -> int {
    if i < 0 {
        0
    } else if i > limit - 1 {
        limit - 1
    } else {
        i
    }
}

/// Constrain `i` into `[0, limit)`.
pub fn constrained_by(i: isize, limit: usize) -> (r: usize)
    requires
        limit >= 1,
    ensures
        r == clamp_spec(i as int, limit as int),
{
    if i < 0 {
        0
    } else if i as usize >= limit {
        limit - 1
    } else {
        i as usize
    }
}

/// A key as the presenter understands it.
#[derive(PartialEq, Eq, Structural, Clone, Copy, Debug)]
pub enum UiKey {
    Esc,
    Up,
    Down,
    PageUp,
    PageDown,
    Enter,
    Char(char),
    Backspace,
    Other,
}

/// A key press with its control modifier.
#[derive(PartialEq, Eq, Structural, Clone, Copy, Debug)]
pub struct KeyInput {
    pub code: UiKey,
    pub ctrl: bool,
}

/// Control-C, either case, quits.
pub open spec fn quit_spec(k: KeyInput) -> bool {
    k.ctrl && (k.code == UiKey::Char('c') || k.code == UiKey::Char('C'))
}

pub fn is_quit(k: &KeyInput) -> (r: bool)
    ensures
        r == quit_spec(*k),
{
    k.ctrl && match k.code {
        UiKey::Char(c) => c == 'c' || c == 'C',
        _ => false,
    }
}

/// What one key press asks of the surroundings: quit, and/or open the
/// git client on a repository path.
pub struct KeyOutcome {
    pub quit: bool,
    pub open_path: Option<String>,
}

/// The indices into `rs[i..]` (absolute) of the repositories whose paths
/// every filter word occurs in.
pub open spec fn filtered_from(rs: Seq<RepoView>, filters: Seq<Seq<char>>, i: int) -> Seq<int>
    decreases rs.len() - i,
{
    if i < 0 || i >= rs.len() {
        Seq::empty()
    } else if passes_filters(rs[i].path, filters) {
        seq![i] + filtered_from(rs, filters, i + 1)
    } else {
        filtered_from(rs, filters, i + 1)
    }
}

/// Filtered indices are strictly increasing positions of `rs`.
pub proof fn lemma_filtered_bounds(rs: Seq<RepoView>, filters: Seq<Seq<char>>, i: int)
    ensures
        forall|k: int|
            0 <= k < filtered_from(rs, filters, i).len() ==> i <= #[trigger] filtered_from(
                rs,
                filters,
                i,
            )[k] < rs.len(),
        forall|k1: int, k2: int|
            0 <= k1 < k2 < filtered_from(rs, filters, i).len() ==> filtered_from(rs, filters, i)[k1]
                < filtered_from(rs, filters, i)[k2],
    decreases rs.len() - i,
{
    if 0 <= i < rs.len() {
        lemma_filtered_bounds(rs, filters, i + 1);
        let cur = filtered_from(rs, filters, i);
        let rest = filtered_from(rs, filters, i + 1);
        if passes_filters(rs[i].path, filters) {
            assert(cur == seq![i] + rest);
            assert forall|k: int| 0 <= k < cur.len() implies i <= #[trigger] cur[k] < rs.len() by {
                if k >= 1 {
                    assert(cur[k] == rest[k - 1]);
                }
            }
            assert forall|k1: int, k2: int| 0 <= k1 < k2 < cur.len() implies cur[k1] < cur[k2] by {
                assert(cur[k2] == rest[k2 - 1]);
                if k1 >= 1 {
                    assert(cur[k1] == rest[k1 - 1]);
                }
            }
        }
    }
}

/// The position of the selected repository in the filtered list, if it
/// still passes the filter.
pub open spec fn sel_pos_spec(rs: Seq<RepoView>, idx: Seq<int>, sel: Option<Selected>) -> Option<
    int,
> {
    match sel {
        Some(s) => if exists|j: int| 0 <= j < idx.len() && rs[#[trigger] idx[j]].path == s.path@ {
            Some(choose|j: int| 0 <= j < idx.len() && rs[#[trigger] idx[j]].path == s.path@)
        } else {
            None
        },
        None => None,
    }
}

/// Where a scroll by `offset` lands in a filtered list of length `len`.
pub open spec fn scroll_index(u_selected: Option<int>, offset: int, len: int) -> int {
    match u_selected {
        Some(u) => clamp_spec(u + offset, len),
        None => clamp_spec(offset, len),
    }
}

/// Which row of the visible window the selection lands on.
pub open spec fn scroll_view_pos(
    old_selected: Option<Selected>,
    u_selected: Option<int>,
    u_scrolled: int,
    offset: int,
    view_height: int,
) -> int {
    match (old_selected, u_selected) {
        (Some(sel), Some(u)) => {
            let i_view = sel.u_view as int;
            if u_scrolled > u && sel.u_view + u_scrolled - u < view_height {
                sel.u_view + (u_scrolled - u)
            } else if i_view + offset >= 0 && i_view + offset < view_height {
                i_view + offset
            } else {
                i_view
            }
        },
        _ => {
            if offset < 0 {
                0
            } else if offset < view_height {
                offset
            } else {
                0
            }
        },
    }
}

/// The presentation model.
pub struct Presenter {
    pub home_dir: Option<String>,
    pub model: Model,
    pub repo_filter: String,
    pub view_height: usize,
    pub selected: Option<Selected>,
}

/// What scrolling `p` by `offset` does to the selection: nothing on an
/// empty filtered list; otherwise the selection moves to the clamped
/// target row, remembering its window position.
pub open spec fn scrolled_to(p: Presenter, offset: int, new_sel: Option<Selected>) -> bool {
    let rv = repos_view(p.model.repos@);
    let idx = filtered_from(rv, split_spaces_spec(p.repo_filter@), 0);
    if idx.len() == 0 {
        new_sel == p.selected
    } else {
        let u_sel = sel_pos_spec(rv, idx, p.selected);
        let us = scroll_index(u_sel, offset, idx.len() as int);
        let vp = scroll_view_pos(p.selected, u_sel, us, offset, p.view_height as int);
        new_sel matches Some(s) && s.path@ == rv[idx[us]].path && s.u_view == min(vp, us)
    }
}

impl Presenter {
    pub open spec fn wf(&self) -> bool {
        self.model.wf()
    }

    /// A fresh presenter: empty model, empty filter, nothing selected.
    /// The home directory, used only for display, is the environment's
    /// business and is handed in.
    pub fn new(home_dir: Option<String>) -> (p: Presenter)
        ensures
            p.wf(),
            p.home_dir == home_dir,
            p.model.repos@.len() == 0,
            p.repo_filter@.len() == 0,
            p.view_height == 1,
            p.selected is None,
    {
        Presenter {
            home_dir,
            model: Model::new(),
            repo_filter: String::new(),
            view_height: 1,
            selected: None,
        }
    }

    /// Merge one discovered repository into the model.
    pub fn add_local_repo(&mut self, repo: LocalRepo)
        requires
            old(self).wf(),
        ensures
            final(self).wf(),
            final(self).model.path_set() =~= old(self).model.path_set().insert(repo@.path),
            final(self).home_dir == old(self).home_dir,
            final(self).repo_filter == old(self).repo_filter,
            final(self).view_height == old(self).view_height,
            final(self).selected == old(self).selected,
    {
        self.model.add_local_repo(repo);
    }

    /// Record the height of the repository window.
    pub fn set_view_height(&mut self, h: usize)
        ensures
            *final(self) == (Presenter { view_height: h, ..*old(self) }),
    {
        self.view_height = h;
    }

    /// Replace the filter text.
    pub fn set_filter(&mut self, f: String)
        ensures
            *final(self) == (Presenter { repo_filter: f, ..*old(self) }),
    {
        self.repo_filter = f;
    }

    /// The repositories passing the filter, as indices into the model, in
    /// model order, together with the position of the selection among
    /// them.
    pub fn filtered_repos(&self) -> (r: (Vec<usize>, Option<usize>))
        requires
            self.wf(),
        ensures
            ({
                let rv = repos_view(self.model.repos@);
                let idx = filtered_from(rv, split_spaces_spec(self.repo_filter@), 0);
                &&& r.0@.map_values(|u: usize| u as int) == idx
                &&& (match r.1 {
                    Some(j) => sel_pos_spec(rv, idx, self.selected) == Some(j as int),
                    None => sel_pos_spec(rv, idx, self.selected) is None,
                })
            }),
    {
        let ghost rv = repos_view(self.model.repos@);
        let filters = split_spaces(self.repo_filter.as_str());
        let ghost fl = split_spaces_spec(self.repo_filter@);
        let mut idx: Vec<usize> = Vec::new();
        let mut pos: Option<usize> = None;
        let mut i: usize = 0;
        proof {
            lemma_filtered_bounds(rv, fl, 0);
        }
        while i < self.model.repos.len()
            invariant
                self.wf(),
                i <= self.model.repos@.len(),
                rv == repos_view(self.model.repos@),
                rv.len() == self.model.repos@.len(),
                fl == split_spaces_spec(self.repo_filter@),
                strings_view(filters@) == fl,
                filtered_from(rv, fl, 0) == idx@.map_values(|u: usize| u as int) + filtered_from(
                    rv,
                    fl,
                    i as int,
                ),
                forall|k: int| 0 <= k < idx@.len() ==> (#[trigger] idx@[k]) < i,
                match pos {
                    Some(j) => j < idx@.len() && (self.selected matches Some(s)
                        && rv[idx@[j as int] as int].path == s.path@),
                    None => !(self.selected matches Some(s) && exists|j: int|
                        0 <= j < idx@.len() && rv[#[trigger] idx@[j] as int].path == s.path@),
                },
            decreases self.model.repos@.len() - i,
        {
            proof {
                assert(filtered_from(rv, fl, i as int) == if passes_filters(rv[i as int].path, fl) {
                    seq![i as int] + filtered_from(rv, fl, i + 1)
                } else {
                    filtered_from(rv, fl, i + 1)
                });
            }
            let repo = &self.model.repos[i];
            proof {
                assert(rv[i as int] == repo@);
            }
            if matches_filters(repo.path.as_str(), &filters) {
                let ghost idx0 = idx@;
                idx.push(i);
                proof {
                    assert(idx@ =~= idx0.push(i));
                    assert(idx@.map_values(|u: usize| u as int) =~= idx0.map_values(
                        |u: usize| u as int,
                    ).push(i as int));
                    assert(idx0.map_values(|u: usize| u as int).push(i as int) + filtered_from(
                        rv,
                        fl,
                        i + 1,
                    ) =~= idx0.map_values(|u: usize| u as int) + (seq![i as int] + filtered_from(
                        rv,
                        fl,
                        i + 1,
                    )));
                }
                let is_sel = match &self.selected {
                    Some(s) => eq_str(&repo.path, &s.path),
                    None => false,
                };
                if is_sel {
                    pos = Some(idx.len() - 1);
                } else {
                    proof {
                        if pos is None {
                            assert forall|j: int|
                                !(self.selected matches Some(s) && 0 <= j < idx@.len()
                                    && rv[#[trigger] idx@[j] as int].path == s.path@) by {
                                if self.selected matches Some(s) && 0 <= j < idx@.len() - 1 {
                                    assert(idx@[j] == idx0[j]);
                                }
                            }
                        }
                    }
                }
            }
            i = i + 1;
        }
        proof {
            assert(filtered_from(rv, fl, i as int) == Seq::<int>::empty());
            assert(idx@.map_values(|u: usize| u as int) + Seq::<int>::empty() =~= idx@.map_values(
                |u: usize| u as int,
            ));
            let idxv = idx@.map_values(|u: usize| u as int);
            match pos {
                Some(j) => {
                    match &self.selected {
                        Some(s) => {
                            assert(rv[idxv[j as int]].path == s.path@);
                            let jc = choose|k: int|
                                0 <= k < idxv.len() && rv[#[trigger] idxv[k]].path == s.path@;
                            if jc != j as int {
                                lemma_filtered_bounds(rv, fl, 0);
                                let a = if jc < j as int {
                                    jc
                                } else {
                                    j as int
                                };
                                let b = if jc < j as int {
                                    j as int
                                } else {
                                    jc
                                };
                                assert(idxv[a] < idxv[b]);
                                assert(lt_seq(rv[idxv[a]].path, rv[idxv[b]].path));
                                lemma_lt_seq_irreflexive(rv[idxv[a]].path);
                                assert(false);
                            }
                            assert(sel_pos_spec(rv, idxv, self.selected) == Some(j as int));
                        }
                        None => {
                            assert(false);
                        }
                    }
                }
                None => {
                }
            }
        }
        (idx, pos)
    }

    /// Move the selection by `offset` rows within the filtered list,
    /// clamping at both ends; with nothing passing the filter, nothing
    /// changes.
    pub fn scroll(&mut self, offset: isize)
        requires
            old(self).wf(),
        ensures
            final(self).wf(),
            final(self).model == old(self).model,
            final(self).home_dir == old(self).home_dir,
            final(self).repo_filter == old(self).repo_filter,
            final(self).view_height == old(self).view_height,
            scrolled_to(*old(self), offset as int, final(self).selected),
    {
        let (idx, pos) = self.filtered_repos();
        let ghost rv = repos_view(self.model.repos@);
        let ghost fl = split_spaces_spec(self.repo_filter@);
        let ghost idxv = filtered_from(rv, fl, 0);
        if idx.len() > 0 {
            let len = idx.len();
            let t128: i128 = match pos {
                Some(u) => (u as i128) + (offset as i128),
                None => offset as i128,
            };
            let us: usize = if t128 < 0 {
                0
            } else if t128 >= (len as i128) {
                len - 1
            } else {
                t128 as usize
            };
            proof {
                assert(us as int == scroll_index(
                    sel_pos_spec(rv, idxv, self.selected),
                    offset as int,
                    idxv.len() as int,
                ));
            }
            let vp: i128 = {
                let have_both = match (&self.selected, pos) {
                    (Some(_), Some(_)) => true,
                    _ => false,
                };
                if have_both {
                    let sel_view = match &self.selected {
                        Some(s) => s.u_view,
                        None => 0,
                    };
                    let u = match pos {
                        Some(u) => u,
                        None => 0,
                    };
                    let iv = sel_view as i128;
                    if us > u && iv + (us as i128) - (u as i128) < (self.view_height as i128) {
                        iv + (us as i128) - (u as i128)
                    } else if iv + (offset as i128) >= 0 && iv + (offset as i128) < (
                    self.view_height as i128) {
                        iv + (offset as i128)
                    } else {
                        iv
                    }
                } else {
                    if offset < 0 {
                        0
                    } else if (offset as i128) < (self.view_height as i128) {
                        offset as i128
                    } else {
                        0
                    }
                }
            };
            proof {
                assert(vp as int == scroll_view_pos(
                    self.selected,
                    sel_pos_spec(rv, idxv, self.selected),
                    us as int,
                    offset as int,
                    self.view_height as int,
                ));
            }
            let uv128: i128 = if vp < (us as i128) {
                vp
            } else {
                us as i128
            };
            proof {
                lemma_filtered_bounds(rv, fl, 0);
                assert(idxv[us as int] < rv.len());
                assert(idx@.map_values(|u: usize| u as int)[us as int] == idx@[us as int] as int);
            }
            let target = idx[us];
            let path = self.model.repos[target].path.clone();
            self.selected = Some(Selected::new(path, uv128 as usize));
        }
    }

    /// Handle one key press: control-C quits; escape clears the filter;
    /// the arrow and page keys move the selection; enter asks to open the
    /// selected repository; a plain character or backspace edits the
    /// filter.
    pub fn handle_key(&mut self, key: KeyInput) -> (r: KeyOutcome)
        requires
            old(self).wf(),
            old(self).view_height <= 32768,
        ensures
            final(self).wf(),
            final(self).model == old(self).model,
            final(self).home_dir == old(self).home_dir,
            final(self).view_height == old(self).view_height,
            quit_spec(key) ==> r.quit && *final(self) == *old(self) && r.open_path is None,
            !quit_spec(key) ==> !r.quit && match key.code {
                UiKey::Esc => final(self).repo_filter@.len() == 0 && final(self).selected == old(
                    self,
                ).selected && r.open_path is None,
                UiKey::Up => final(self).repo_filter == old(self).repo_filter && scrolled_to(
                    *old(self),
                    -1,
                    final(self).selected,
                ) && r.open_path is None,
                UiKey::Down => final(self).repo_filter == old(self).repo_filter && scrolled_to(
                    *old(self),
                    1,
                    final(self).selected,
                ) && r.open_path is None,
                UiKey::PageUp => final(self).repo_filter == old(self).repo_filter && scrolled_to(
                    *old(self),
                    -(old(self).view_height as int),
                    final(self).selected,
                ) && r.open_path is None,
                UiKey::PageDown => final(self).repo_filter == old(self).repo_filter && scrolled_to(
                    *old(self),
                    old(self).view_height as int,
                    final(self).selected,
                ) && r.open_path is None,
                UiKey::Enter => *final(self) == *old(self) && (match r.open_path {
                    Some(p) => old(self).selected matches Some(s) && p@ == s.path@,
                    None => old(self).selected is None,
                }),
                UiKey::Char(c) => final(self).repo_filter@ == old(self).repo_filter@.push(c)
                    && final(self).selected == old(self).selected && r.open_path is None,
                UiKey::Backspace => final(self).selected == old(self).selected && r.open_path
                    is None && (if old(self).repo_filter@.len() == 0 {
                    final(self).repo_filter@ == old(self).repo_filter@
                } else {
                    final(self).repo_filter@ == old(self).repo_filter@.take(
                        old(self).repo_filter@.len() - 1,
                    )
                }),
                UiKey::Other => *final(self) == *old(self) && r.open_path is None,
            },
    {
        if is_quit(&key) {
            return KeyOutcome { quit: true, open_path: None };
        }
        match key.code {
            UiKey::Esc => {
                self.repo_filter = String::new();
                KeyOutcome { quit: false, open_path: None }
            }
            UiKey::Up => {
                self.scroll(-1);
                KeyOutcome { quit: false, open_path: None }
            }
            UiKey::Down => {
                self.scroll(1);
                KeyOutcome { quit: false, open_path: None }
            }
            UiKey::PageUp => {
                let h = self.view_height;
                self.scroll(-(h as isize));
                KeyOutcome { quit: false, open_path: None }
            }
            UiKey::PageDown => {
                let h = self.view_height;
                self.scroll(h as isize);
                KeyOutcome { quit: false, open_path: None }
            }
            UiKey::Enter => {
                let open_path = match &self.selected {
                    Some(s) => Some(s.path.clone()),
                    None => None,
                };
                KeyOutcome { quit: false, open_path }
            }
            UiKey::Char(c) => {
                let nf = push_char(self.repo_filter.as_str(), c);
                self.repo_filter = nf;
                KeyOutcome { quit: false, open_path: None }
            }
            UiKey::Backspace => {
                let nf = pop_char(self.repo_filter.as_str());
                self.repo_filter = nf;
                KeyOutcome { quit: false, open_path: None }
            }
            UiKey::Other => KeyOutcome { quit: false, open_path: None },
        }
    }

    /// A path as the view shows it: the home directory collapses to `~`.
    pub fn display_path(&self, path: &str) -> (r: String)
        ensures
            r@ == display_spec(self.home_dir, path@),
    {
        match &self.home_dir {
            Some(h) => {
                if starts_with(path, h.as_str()) {
                    let n = path.unicode_len();
                    let hl = h.as_str().unicode_len();
                    let tilde = "~";
                    proof {
                        reveal_strlit("~");
                        assert(tilde@ =~= seq!['~']);
                        assert(path@.subrange(hl as int, n as int) =~= path@.skip(hl as int));
                    }
                    tilde.to_owned().concat(path.substring_char(hl, n))
                } else {
                    path.to_owned()
                }
            }
            None => path.to_owned(),
        }
    }

    /// What the view needs to draw the repository window: how many rows
    /// pass the filter, how many rows to skip so the selection stays
    /// visible, the scrollbar extent, and the selected row.
    pub fn view_plan(&self) -> (v: ViewPlan)
        requires
            self.wf(),
        ensures
            ({
                let rv = repos_view(self.model.repos@);
                let idx = filtered_from(rv, split_spaces_spec(self.repo_filter@), 0);
                let u_sel = sel_pos_spec(rv, idx, self.selected);
                &&& v.n_filtered == idx.len()
                &&& v.total == self.model.repos@.len()
                &&& (match u_sel {
                    Some(u) => self.selected matches Some(s) && v.skip == u - min(
                        s.u_view as int,
                        u,
                    ) && v.selected_row == Some(u as usize),
                    None => v.skip == 0 && v.selected_row is None,
                })
                &&& v.scrollbar_content_length == (if idx.len() < self.view_height {
                    idx.len() as int
                } else {
                    idx.len() - self.view_height
                })
            }),
    {
        let (idx, pos) = self.filtered_repos();
        let n = idx.len();
        let skip = match (&self.selected, pos) {
            (Some(s), Some(u)) => {
                let m = if s.u_view < u {
                    s.u_view
                } else {
                    u
                };
                u - m
            }
            _ => 0,
        };
        let scrollbar_content_length = if n < self.view_height {
            n
        } else {
            n - self.view_height
        };
        ViewPlan {
            skip,
            n_filtered: n,
            total: self.model.len(),
            scrollbar_content_length,
            selected_row: pos,
        }
    }
}

/// How the home directory shows in a path: collapsed to `~` when it
/// prefixes the path.
pub open spec fn display_spec(home: Option<String>, p: Seq<char>) -> Seq<char> {
    match home {
        Some(h) => if is_prefix(h@, p) {
            seq!['~'] + p.skip(h@.len() as int)
        } else {
            p
        },
        None => p,
    }
}

/// The numbers a renderer needs for the repository window.
pub struct ViewPlan {
    pub skip: usize,
    pub n_filtered: usize,
    pub total: usize,
    pub scrollbar_content_length: usize,
    pub selected_row: Option<usize>,
}

} // verus!
