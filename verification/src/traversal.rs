//! The repository-discovery engine: a breadth-first traversal over
//! directory trees that reports every primary git worktree it can reach,
//! never descends beneath one, and turns per-directory listing failures
//! into warnings instead of aborting the scan.
//!
//! The engine comes in two forms with one specification:
//!
//! * [`Traversal`] is the incremental form: it owns the pending queue and
//!   is driven step by step by a backend that answers, for the directory
//!   at the front of the queue, whether it is a primary worktree, what its
//!   subdirectories are, or that listing failed.  The I/O that produces
//!   those answers lives outside the library.
//! * [`scan`] runs the same algorithm to completion over an in-memory
//!   description of a directory tree ([`DirTree`]), and is proved to
//!   produce exactly the breadth-first sequence of discovered
//!   repositories and warnings.

use std::collections::VecDeque;

use vstd::prelude::*;
use vstd::seq_lib::lemma_multiset_commutative;

use crate::model::{clone_remotes, remotes_view, repos_view, LocalRepo, Remote, RepoView};
use crate::paths::{join_spec, path_join};

verus! {

/// What a directory is, as the backend would report it.
pub enum NodeKind {
    /// `<dir>/.git` exists as a directory: the primary worktree of a git
    /// repository, with the remotes that enumeration would return.
    Worktree { remotes: Vec<Remote> },
    /// An ordinary directory whose entries can be listed.
    Plain,
    /// A directory whose listing fails (permission denied, vanished, I/O
    /// error).
    Unreadable,
}

/// An in-memory directory tree, the engine's model of a filesystem.
///
/// A linked worktree — `<dir>/.git` existing as a marker file — is an
/// ordinary [`NodeKind::Plain`] directory here: the engine does not report
/// it and keeps descending, exactly as the two-part worktree test demands.
pub struct DirTree {
    pub name: String,
    pub kind: NodeKind,
    pub children: Vec<DirTree>,
}

/// A pending queue entry: the path a directory was reached by, and the
/// subtree rooted there.
pub struct QItem {
    pub path: Seq<char>,
    pub tree: DirTree,
}

/// Total number of nodes in `ts[i..]`, counting every descendant.
pub open spec fn forest_size(ts: Seq<DirTree>, i: int) -> nat
    decreases ts, ts.len() - i,
{
    if i < 0 || i >= ts.len() {
        0
    } else {
        1 + forest_size(ts[i].children@, 0) + forest_size(ts, i + 1)
    }
}

/// Total number of nodes of a tree.
pub open spec fn tree_size(t: DirTree) -> nat {
    1 + forest_size(t.children@, 0)
}

/// Total number of nodes pending in `q[i..]`.
pub open spec fn queue_size_from(q: Seq<QItem>, i: int) -> nat
    decreases q.len() - i,
{
    if i < 0 || i >= q.len() {
        0
    } else {
        tree_size(q[i].tree) + queue_size_from(q, i + 1)
    }
}

/// Total number of nodes pending in a queue.
pub open spec fn queue_size(q: Seq<QItem>) -> nat {
    queue_size_from(q, 0)
}

proof fn lemma_queue_size_shift(q: Seq<QItem>, i: int)
    requires
        1 <= i,
        q.len() > 0,
    ensures
        queue_size_from(q, i) == queue_size_from(q.drop_first(), i - 1),
    decreases q.len() - i,
{
    if i < q.len() {
        assert(q.drop_first()[i - 1] == q[i]);
        lemma_queue_size_shift(q, i + 1);
    }
}

/// Dropping the front of a queue removes exactly that subtree's nodes.
pub proof fn lemma_queue_size_drop(q: Seq<QItem>)
    requires
        q.len() > 0,
    ensures
        queue_size(q) == tree_size(q[0].tree) + queue_size(q.drop_first()),
{
    lemma_queue_size_shift(q, 1);
}

proof fn lemma_queue_size_offset(a: Seq<QItem>, b: Seq<QItem>, j: int)
    requires
        0 <= j <= b.len(),
    ensures
        queue_size_from(a + b, a.len() + j) == queue_size_from(b, j),
    decreases b.len() - j,
{
    if j < b.len() {
        assert((a + b)[a.len() + j] == b[j]);
        lemma_queue_size_offset(a, b, j + 1);
    }
}

/// Queue size adds over concatenation.
pub proof fn lemma_queue_size_concat(a: Seq<QItem>, b: Seq<QItem>)
    ensures
        queue_size(a + b) == queue_size(a) + queue_size(b),
{
    lemma_queue_size_concat_from(a, b, 0);
}

proof fn lemma_queue_size_concat_from(a: Seq<QItem>, b: Seq<QItem>, i: int)
    requires
        0 <= i <= a.len(),
    ensures
        queue_size_from(a + b, i) == queue_size_from(a, i) + queue_size_from(b, 0),
    decreases a.len() - i,
{
    if i < a.len() {
        assert((a + b)[i] == a[i]);
        lemma_queue_size_concat_from(a, b, i + 1);
    } else {
        lemma_queue_size_offset(a, b, 0);
    }
}

/// The queue entries for the children of a directory reached by `path`:
/// each child is reached by joining its name onto `path`, in listing
/// order.
pub open spec fn child_items(path: Seq<char>, ts: Seq<DirTree>) -> Seq<QItem> {
    Seq::new(ts.len(), |i: int| QItem { path: join_spec(path, ts[i].name@), tree: ts[i] })
}

/// The children of a directory hold exactly its nodes but itself.
pub proof fn lemma_child_items_size(path: Seq<char>, ts: Seq<DirTree>)
    ensures
        queue_size(child_items(path, ts)) == forest_size(ts, 0),
{
    lemma_child_items_size_from(path, ts, 0);
}

proof fn lemma_child_items_size_from(path: Seq<char>, ts: Seq<DirTree>, i: int)
    requires
        0 <= i,
    ensures
        queue_size_from(child_items(path, ts), i) == forest_size(ts, i),
    decreases ts.len() - i,
{
    if i < ts.len() {
        lemma_child_items_size_from(path, ts, i + 1);
    }
}

/// The warning a directory that cannot be listed produces.
pub open spec fn warning_view(path: Seq<char>) -> Seq<char> {
    "Failed to read "@ + path
}

/// The breadth-first sequence of repositories discovered from pending
/// queue `q`: the front directory is tested first; a primary worktree is
/// reported and not descended into; an ordinary directory enqueues its
/// children at the back; an unlistable one is passed over.
pub open spec fn scan_repos_spec(q: Seq<QItem>) -> Seq<RepoView>
    decreases queue_size(q),
    via scan_repos_spec_decreases
{
    if q.len() == 0 {
        Seq::empty()
    } else {
        match q[0].tree.kind {
            NodeKind::Worktree { remotes } => seq![
                RepoView { path: q[0].path, remotes: remotes_view(remotes@) },
            ] + scan_repos_spec(q.drop_first()),
            NodeKind::Plain => scan_repos_spec(
                q.drop_first() + child_items(q[0].path, q[0].tree.children@),
            ),
            NodeKind::Unreadable => scan_repos_spec(q.drop_first()),
        }
    }
}

#[via_fn]
proof fn scan_repos_spec_decreases(q: Seq<QItem>) {
    if q.len() > 0 {
        lemma_step_measure(q);
    }
}

/// The breadth-first sequence of warnings: one per unlistable directory
/// reached, in the same traversal order.
pub open spec fn scan_warnings_spec(q: Seq<QItem>) -> Seq<Seq<char>>
    decreases queue_size(q),
    via scan_warnings_spec_decreases
{
    if q.len() == 0 {
        Seq::empty()
    } else {
        match q[0].tree.kind {
            NodeKind::Worktree { remotes } => scan_warnings_spec(q.drop_first()),
            NodeKind::Plain => scan_warnings_spec(
                q.drop_first() + child_items(q[0].path, q[0].tree.children@),
            ),
            NodeKind::Unreadable => seq![warning_view(q[0].path)] + scan_warnings_spec(
                q.drop_first(),
            ),
        }
    }
}

#[via_fn]
proof fn scan_warnings_spec_decreases(q: Seq<QItem>) {
    if q.len() > 0 {
        lemma_step_measure(q);
    }
}

/// The measure facts every traversal step needs: dropping the front
/// shrinks the queue, and so does replacing it by its children.
pub proof fn lemma_step_measure(q: Seq<QItem>)
    requires
        q.len() > 0,
    ensures
        queue_size(q.drop_first()) < queue_size(q),
        queue_size(q.drop_first() + child_items(q[0].path, q[0].tree.children@)) < queue_size(q),
{
    lemma_queue_size_drop(q);
    lemma_queue_size_concat(q.drop_first(), child_items(q[0].path, q[0].tree.children@));
    lemma_child_items_size(q[0].path, q[0].tree.children@);
}

/// Build the warning for a directory whose listing failed.
pub fn make_warning(path: &str) -> (w: String)
    ensures
        w@ == warning_view(path@),
{
    let prefix = "Failed to read ";
    prefix.to_owned().concat(path)
}

/// Everything one completed scan produced: the repositories in
/// breadth-first discovery order, and the warnings in the order their
/// directories were reached.
pub struct ScanOutcome {
    pub repos: Vec<LocalRepo>,
    pub warnings: Vec<String>,
}

/// The initial pending queue for a set of scan roots: order preserved,
/// no de-duplication.
pub open spec fn root_items(rs: Seq<(String, DirTree)>) -> Seq<QItem> {
    Seq::new(rs.len(), |i: int| QItem { path: rs[i].0@, tree: rs[i].1 })
}

/// The queue entries an in-progress scan still has pending.
pub open spec fn live_items(q: Seq<(String, &DirTree)>) -> Seq<QItem> {
    Seq::new(q.len(), |i: int| QItem { path: q[i].0@, tree: *q[i].1 })
}

/// The views of a vector of warning strings.
pub open spec fn strings_view(s: Seq<String>) -> Seq<Seq<char>> {
    s.map_values(|w: String| w@)
}

proof fn lemma_live_items_push<'a>(q: Seq<(String, &'a DirTree)>, x: (String, &'a DirTree))
    ensures
        live_items(q.push(x)) =~= live_items(q).push(QItem { path: x.0@, tree: *x.1 }),
{
    assert forall|k: int| 0 <= k < q.len() + 1 implies #[trigger] live_items(q.push(x))[k]
        == live_items(q).push(QItem { path: x.0@, tree: *x.1 })[k] by {
        if k < q.len() {
            assert(q.push(x)[k] == q[k]);
        } else {
            assert(q.push(x)[k] == x);
        }
    }
}

proof fn lemma_strings_view_push(s: Seq<String>, x: String)
    ensures
        strings_view(s.push(x)) =~= strings_view(s).push(x@),
{
    assert forall|k: int| 0 <= k < s.len() + 1 implies #[trigger] strings_view(s.push(x))[k]
        == strings_view(s).push(x@)[k] by {
        if k < s.len() {
            assert(s.push(x)[k] == s[k]);
        } else {
            assert(s.push(x)[k] == x);
        }
    }
}

proof fn lemma_repos_view_push(s: Seq<LocalRepo>, x: LocalRepo)
    ensures
        repos_view(s.push(x)) =~= repos_view(s).push(x@),
{
    assert forall|k: int| 0 <= k < s.len() + 1 implies #[trigger] repos_view(s.push(x))[k]
        == repos_view(s).push(x@)[k] by {
        if k < s.len() {
            assert(s.push(x)[k] == s[k]);
        } else {
            assert(s.push(x)[k] == x);
        }
    }
}

/// Run the traversal to completion over in-memory directory trees, one
/// per scan root.
///
/// The result is exactly the breadth-first discovery sequence: every
/// primary worktree reachable without crossing another worktree boundary
/// is reported once, nothing beneath a reported worktree is visited, and
/// every unlistable directory reached contributes one warning while the
/// rest of the scan completes.
pub fn scan(roots: &Vec<(String, DirTree)>) -> (out: ScanOutcome)
    ensures
        repos_view(out.repos@) == scan_repos_spec(root_items(roots@)),
        strings_view(out.warnings@) == scan_warnings_spec(root_items(roots@)),
{
    let ghost q0 = root_items(roots@);
    let mut queue: Vec<(String, &DirTree)> = Vec::new();
    let mut i: usize = 0;
    while i < roots.len()
        invariant
            i <= roots@.len(),
            live_items(queue@) =~= root_items(roots@).take(i as int),
        decreases roots@.len() - i,
    {
        let root = &roots[i];
        let ghost qe_before = queue@;
        queue.push((root.0.clone(), &root.1));
        proof {
            let x = queue@[queue@.len() - 1];
            assert(queue@ == qe_before.push(x));
            lemma_live_items_push(qe_before, x);
            assert(QItem { path: x.0@, tree: *x.1 } == root_items(roots@)[i as int]);
            assert(root_items(roots@).take(i + 1) =~= root_items(roots@).take(i as int).push(
                root_items(roots@)[i as int],
            ));
            assert(live_items(queue@) =~= root_items(roots@).take(i + 1));
        }
        i = i + 1;
    }
    proof {
        assert(live_items(queue@) =~= q0);
    }

    let mut repos: Vec<LocalRepo> = Vec::new();
    let mut warnings: Vec<String> = Vec::new();
    while queue.len() > 0
        invariant
            repos_view(repos@) + scan_repos_spec(live_items(queue@)) == scan_repos_spec(q0),
            strings_view(warnings@) + scan_warnings_spec(live_items(queue@)) == scan_warnings_spec(
                q0,
            ),
        decreases queue_size(live_items(queue@)),
    {
        let ghost q_old = live_items(queue@);
        proof {
            lemma_step_measure(q_old);
        }
        let (path, node) = queue.remove(0);
        proof {
            assert(live_items(queue@) =~= q_old.drop_first());
        }
        match &node.kind {
            NodeKind::Worktree { remotes } => {
                let ghost rv = RepoView {
                    path: q_old[0].path,
                    remotes: remotes_view(remotes@),
                };
                let repo = LocalRepo { path, remotes: clone_remotes(remotes) };
                proof {
                    assert(repo@ == rv);
                    assert(scan_repos_spec(q_old) == seq![rv] + scan_repos_spec(
                        q_old.drop_first(),
                    ));
                }
                let ghost repos_before = repos@;
                repos.push(repo);
                proof {
                    let x = repos@[repos@.len() - 1];
                    assert(repos@ == repos_before.push(x));
                    lemma_repos_view_push(repos_before, x);
                    assert(x@ == rv);
                    assert(repos_view(repos@) =~= repos_view(repos_before) + seq![rv]);
                    assert((repos_view(repos_before) + seq![rv]) + scan_repos_spec(
                        q_old.drop_first(),
                    ) =~= repos_view(repos_before) + (seq![rv] + scan_repos_spec(
                        q_old.drop_first(),
                    )));
                }
            }
            NodeKind::Plain => {
                let ghost children = q_old[0].tree.children@;
                let mut j: usize = 0;
                while j < node.children.len()
                    invariant
                        j <= node.children@.len(),
                        node.children@ == children,
                        path@ == q_old[0].path,
                        live_items(queue@) =~= q_old.drop_first() + child_items(
                            q_old[0].path,
                            children,
                        ).take(j as int),
                    decreases node.children@.len() - j,
                {
                    let child = &node.children[j];
                    let child_path = path_join(path.as_str(), child.name.as_str());
                    let ghost qe_before = queue@;
                    queue.push((child_path, child));
                    proof {
                        let ci = child_items(q_old[0].path, children);
                        let x = queue@[queue@.len() - 1];
                        assert(queue@ == qe_before.push(x));
                        lemma_live_items_push(qe_before, x);
                        assert(QItem { path: x.0@, tree: *x.1 } == ci[j as int]);
                        assert(ci.take(j + 1) =~= ci.take(j as int).push(ci[j as int]));
                        assert(q_old.drop_first() + ci.take(j as int).push(ci[j as int]) =~= (
                        q_old.drop_first() + ci.take(j as int)).push(ci[j as int]));
                        assert(live_items(queue@) =~= q_old.drop_first() + ci.take(j + 1));
                    }
                    j = j + 1;
                }
                proof {
                    assert(child_items(q_old[0].path, children).take(children.len() as int)
                        =~= child_items(q_old[0].path, children));
                    assert(live_items(queue@) =~= q_old.drop_first() + child_items(
                        q_old[0].path,
                        children,
                    ));
                }
            }
            NodeKind::Unreadable => {
                let w = make_warning(path.as_str());
                proof {
                    assert(w@ == warning_view(q_old[0].path));
                    assert(scan_warnings_spec(q_old) == seq![warning_view(q_old[0].path)]
                        + scan_warnings_spec(q_old.drop_first()));
                }
                let ghost warnings_before = warnings@;
                warnings.push(w);
                proof {
                    let x = warnings@[warnings@.len() - 1];
                    assert(warnings@ == warnings_before.push(x));
                    lemma_strings_view_push(warnings_before, x);
                    assert(strings_view(warnings@) =~= strings_view(warnings_before) + seq![
                        warning_view(q_old[0].path),
                    ]);
                    assert((strings_view(warnings_before) + seq![warning_view(q_old[0].path)])
                        + scan_warnings_spec(q_old.drop_first()) =~= strings_view(warnings_before)
                        + (seq![warning_view(q_old[0].path)] + scan_warnings_spec(
                        q_old.drop_first(),
                    )));
                }
            }
        }
    }
    proof {
        assert(live_items(queue@) =~= Seq::<QItem>::empty());
        assert(scan_repos_spec(live_items(queue@)) =~= Seq::<RepoView>::empty());
        assert(scan_warnings_spec(live_items(queue@)) =~= Seq::<Seq<char>>::empty());
        assert(repos_view(repos@) + Seq::<RepoView>::empty() =~= repos_view(repos@));
        assert(strings_view(warnings@) + Seq::<Seq<char>>::empty() =~= strings_view(warnings@));
    }
    ScanOutcome { repos, warnings }
}

/// The primary worktrees a subtree contributes to a scan that reaches it
/// by `path`: a worktree node is reported — once, by itself — and hides
/// everything beneath it; an ordinary directory contributes whatever its
/// children contribute; an unlistable one contributes nothing.
pub open spec fn repos_under(path: Seq<char>, t: DirTree) -> Seq<RepoView>
    decreases tree_size(t), 0int,
{
    match t.kind {
        NodeKind::Worktree { remotes } => seq![
            RepoView { path, remotes: remotes_view(remotes@) },
        ],
        NodeKind::Plain => repos_under_forest(path, t.children@, 0),
        NodeKind::Unreadable => Seq::empty(),
    }
}

/// The worktrees contributed by the subtrees `ts[i..]` of a directory
/// reached by `path`.
pub open spec fn repos_under_forest(path: Seq<char>, ts: Seq<DirTree>, i: int) -> Seq<RepoView>
    decreases forest_size(ts, i), 1int,
{
    if i < 0 || i >= ts.len() {
        Seq::empty()
    } else {
        repos_under(join_spec(path, ts[i].name@), ts[i]) + repos_under_forest(path, ts, i + 1)
    }
}

/// The warnings a subtree contributes: one per unlistable directory the
/// scan reaches (a worktree's interior is never reached).
pub open spec fn warnings_under(path: Seq<char>, t: DirTree) -> Seq<Seq<char>>
    decreases tree_size(t), 0int,
{
    match t.kind {
        NodeKind::Worktree { remotes } => Seq::empty(),
        NodeKind::Plain => warnings_under_forest(path, t.children@, 0),
        NodeKind::Unreadable => seq![warning_view(path)],
    }
}

/// The warnings contributed by the subtrees `ts[i..]`.
pub open spec fn warnings_under_forest(path: Seq<char>, ts: Seq<DirTree>, i: int) -> Seq<Seq<char>>
    decreases forest_size(ts, i), 1int,
{
    if i < 0 || i >= ts.len() {
        Seq::empty()
    } else {
        warnings_under(join_spec(path, ts[i].name@), ts[i]) + warnings_under_forest(path, ts, i + 1)
    }
}

/// The worktrees contributed by every entry of a pending queue.
pub open spec fn queue_repos(q: Seq<QItem>) -> Seq<RepoView>
    decreases q.len(),
{
    if q.len() == 0 {
        Seq::empty()
    } else {
        repos_under(q[0].path, q[0].tree) + queue_repos(q.drop_first())
    }
}

/// The warnings contributed by every entry of a pending queue.
pub open spec fn queue_warnings(q: Seq<QItem>) -> Seq<Seq<char>>
    decreases q.len(),
{
    if q.len() == 0 {
        Seq::empty()
    } else {
        warnings_under(q[0].path, q[0].tree) + queue_warnings(q.drop_first())
    }
}

proof fn lemma_queue_repos_concat(a: Seq<QItem>, b: Seq<QItem>)
    ensures
        queue_repos(a + b) =~= queue_repos(a) + queue_repos(b),
        queue_warnings(a + b) =~= queue_warnings(a) + queue_warnings(b),
    decreases a.len(),
{
    if a.len() == 0 {
        assert(a + b =~= b);
        assert(queue_repos(a) + queue_repos(b) =~= queue_repos(b));
        assert(queue_warnings(a) + queue_warnings(b) =~= queue_warnings(b));
    } else {
        assert((a + b)[0] == a[0]);
        assert((a + b).drop_first() =~= a.drop_first() + b);
        lemma_queue_repos_concat(a.drop_first(), b);
        assert(queue_repos(a + b) =~= repos_under(a[0].path, a[0].tree) + (queue_repos(
            a.drop_first(),
        ) + queue_repos(b)));
        assert(repos_under(a[0].path, a[0].tree) + (queue_repos(a.drop_first()) + queue_repos(b))
            =~= (repos_under(a[0].path, a[0].tree) + queue_repos(a.drop_first())) + queue_repos(b));
        assert(queue_warnings(a + b) =~= warnings_under(a[0].path, a[0].tree) + (queue_warnings(
            a.drop_first(),
        ) + queue_warnings(b)));
        assert(warnings_under(a[0].path, a[0].tree) + (queue_warnings(a.drop_first())
            + queue_warnings(b)) =~= (warnings_under(a[0].path, a[0].tree) + queue_warnings(
            a.drop_first(),
        )) + queue_warnings(b));
    }
}

proof fn lemma_queue_repos_children(path: Seq<char>, ts: Seq<DirTree>, i: int)
    requires
        0 <= i <= ts.len(),
    ensures
        queue_repos(child_items(path, ts).skip(i)) =~= repos_under_forest(path, ts, i),
        queue_warnings(child_items(path, ts).skip(i)) =~= warnings_under_forest(path, ts, i),
    decreases ts.len() - i,
{
    let ci = child_items(path, ts);
    if i == ts.len() {
        assert(ci.skip(i).len() == 0);
    } else {
        assert(ci.skip(i)[0] == ci[i]);
        assert(ci.skip(i).drop_first() =~= ci.skip(i + 1));
        lemma_queue_repos_children(path, ts, i + 1);
    }
}

/// Discovery is complete and exact: the breadth-first scan of a queue
/// reports, as a multiset, precisely the primary worktrees each pending
/// subtree contributes — and the same for warnings.  One entry per
/// reachable worktree, nothing for linked worktrees (they are ordinary
/// directories in the tree model), nothing beneath a reported worktree.
pub proof fn lemma_scan_matches_tree(q: Seq<QItem>)
    ensures
        scan_repos_spec(q).to_multiset() == queue_repos(q).to_multiset(),
        scan_warnings_spec(q).to_multiset() == queue_warnings(q).to_multiset(),
    decreases queue_size(q),
{
    broadcast use vstd::multiset::group_multiset_axioms;

    if q.len() == 0 {
    } else {
        lemma_step_measure(q);
        let drop = q.drop_first();
        match q[0].tree.kind {
            NodeKind::Worktree { remotes } => {
                let rv = RepoView { path: q[0].path, remotes: remotes_view(remotes@) };
                lemma_scan_matches_tree(drop);
                lemma_multiset_commutative(seq![rv], scan_repos_spec(drop));
                lemma_multiset_commutative(seq![rv], queue_repos(drop));
                assert(scan_repos_spec(q).to_multiset() =~= queue_repos(q).to_multiset());
                assert(warnings_under(q[0].path, q[0].tree) + queue_warnings(drop)
                    =~= queue_warnings(drop));
            }
            NodeKind::Plain => {
                let ci = child_items(q[0].path, q[0].tree.children@);
                lemma_scan_matches_tree(drop + ci);
                lemma_queue_repos_concat(drop, ci);
                assert(ci.skip(0) =~= ci);
                lemma_queue_repos_children(q[0].path, q[0].tree.children@, 0);
                lemma_multiset_commutative(queue_repos(drop), queue_repos(ci));
                lemma_multiset_commutative(repos_under(q[0].path, q[0].tree), queue_repos(drop));
                assert(queue_repos(ci).to_multiset() == repos_under(
                    q[0].path,
                    q[0].tree,
                ).to_multiset());
                assert(queue_repos(drop + ci).to_multiset() =~= queue_repos(q).to_multiset());
                lemma_multiset_commutative(queue_warnings(drop), queue_warnings(ci));
                lemma_multiset_commutative(
                    warnings_under(q[0].path, q[0].tree),
                    queue_warnings(drop),
                );
                assert(queue_warnings(ci).to_multiset() == warnings_under(
                    q[0].path,
                    q[0].tree,
                ).to_multiset());
                assert(queue_warnings(drop + ci).to_multiset() =~= queue_warnings(
                    q,
                ).to_multiset());
            }
            NodeKind::Unreadable => {
                let wv = warning_view(q[0].path);
                lemma_scan_matches_tree(drop);
                lemma_multiset_commutative(seq![wv], scan_warnings_spec(drop));
                lemma_multiset_commutative(seq![wv], queue_warnings(drop));
                assert(scan_warnings_spec(q).to_multiset() =~= queue_warnings(q).to_multiset());
                assert(repos_under(q[0].path, q[0].tree) + queue_repos(drop) =~= queue_repos(
                    drop,
                ));
            }
        }
    }
}

/// Law: a scan of one root discovers exactly one repository per primary
/// worktree reachable without crossing another worktree boundary, and one
/// warning per unlistable directory reached — no more, no less.
pub proof fn lemma_discovery_exact(path: Seq<char>, t: DirTree)
    ensures
        scan_repos_spec(seq![QItem { path, tree: t }]).to_multiset() == repos_under(
            path,
            t,
        ).to_multiset(),
        scan_warnings_spec(seq![QItem { path, tree: t }]).to_multiset() == warnings_under(
            path,
            t,
        ).to_multiset(),
{
    broadcast use vstd::multiset::group_multiset_axioms;

    let q = seq![QItem { path, tree: t }];
    lemma_scan_matches_tree(q);
    assert(q.drop_first().len() == 0);
    assert(repos_under(path, t) + queue_repos(q.drop_first()) =~= repos_under(path, t));
    assert(warnings_under(path, t) + queue_warnings(q.drop_first()) =~= warnings_under(path, t));
}

/// Law: rescanning an unchanged tree yields the same discovery sequence
/// and the same warnings — the scan is a function of the tree alone.
pub proof fn lemma_scan_idempotent(r1: Seq<(String, DirTree)>, r2: Seq<(String, DirTree)>)
    requires
        r1 == r2,
    ensures
        scan_repos_spec(root_items(r1)) == scan_repos_spec(root_items(r2)),
        scan_warnings_spec(root_items(r1)) == scan_warnings_spec(root_items(r2)),
{
}

/// Law: the order in which two roots are scanned does not change the set
/// of repositories discovered (breadth-first order within each root is a
/// separate guarantee of the scan itself).
pub proof fn lemma_roots_order_irrelevant(a: QItem, b: QItem)
    ensures
        scan_repos_spec(seq![a, b]).to_multiset() == scan_repos_spec(seq![b, a]).to_multiset(),
{
    broadcast use vstd::multiset::group_multiset_axioms;

    lemma_scan_matches_tree(seq![a, b]);
    lemma_scan_matches_tree(seq![b, a]);
    let qa = seq![a, b];
    let qb = seq![b, a];
    assert(qa.drop_first() =~= seq![b]);
    assert(qb.drop_first() =~= seq![a]);
    assert(seq![b].drop_first().len() == 0);
    assert(seq![a].drop_first().len() == 0);
    assert(queue_repos(seq![b].drop_first()) =~= Seq::<RepoView>::empty());
    assert(queue_repos(seq![a].drop_first()) =~= Seq::<RepoView>::empty());
    let ra = repos_under(a.path, a.tree);
    let rb = repos_under(b.path, b.tree);
    assert(queue_repos(seq![b]) =~= rb + Seq::<RepoView>::empty());
    assert(rb + Seq::<RepoView>::empty() =~= rb);
    assert(queue_repos(seq![a]) =~= ra + Seq::<RepoView>::empty());
    assert(ra + Seq::<RepoView>::empty() =~= ra);
    lemma_multiset_commutative(ra, rb);
    lemma_multiset_commutative(rb, ra);
    assert(ra.to_multiset().add(rb.to_multiset()) =~= rb.to_multiset().add(ra.to_multiset()));
    assert(queue_repos(qa).to_multiset() =~= queue_repos(qb).to_multiset());
}

/// What the backend reports of the directory at the front of the pending
/// queue.
pub enum Observation {
    /// The directory is the primary worktree of a git repository; remote
    /// enumeration (best-effort) returned these remotes.
    Worktree { remotes: Vec<Remote> },
    /// Not a primary worktree; listing succeeded and found subdirectories
    /// with these names, in listing order.
    Subdirs { names: Vec<String> },
    /// Not a primary worktree; listing the directory itself failed.
    ListFailed,
}

/// What one traversal step produced for the consumer.
pub enum StepEvent {
    /// A repository, to be streamed out.
    Found(LocalRepo),
    /// A warning attributed to the directory that could not be listed.
    Warn(String),
    /// Nothing visible: the queue advanced.
    Advanced,
}

/// The incremental traversal engine: a pending queue of not-yet-visited
/// directories, driven by backend observations.
///
/// Between steps the queue is the engine's only state, so a driver can
/// suspend on I/O at every step and abandon the scan at any point.
pub struct Traversal {
    pending: VecDeque<String>,
}

impl Traversal {
    /// The paths still pending, front first.
    pub closed spec fn pending_view(&self) -> Seq<Seq<char>> {
        strings_view(self.pending@)
    }

    /// Seed the queue with the scan roots, order preserved, duplicates
    /// kept.
    pub fn new(roots: &Vec<String>) -> (t: Traversal)
        ensures
            t.pending_view() == strings_view(roots@),
    {
        let mut pending: VecDeque<String> = VecDeque::new();
        let mut i: usize = 0;
        while i < roots.len()
            invariant
                i <= roots@.len(),
                strings_view(pending@) =~= strings_view(roots@).take(i as int),
            decreases roots@.len() - i,
        {
            let ghost p_before = pending@;
            pending.push_back(roots[i].clone());
            proof {
                let x = pending@[pending@.len() - 1];
                assert(pending@ == p_before.push(x));
                lemma_strings_view_push(p_before, x);
                assert(x@ == strings_view(roots@)[i as int]);
                assert(strings_view(roots@).take(i + 1) =~= strings_view(roots@).take(
                    i as int,
                ).push(strings_view(roots@)[i as int]));
                assert(strings_view(pending@) =~= strings_view(roots@).take(i + 1));
            }
            i = i + 1;
        }
        proof {
            assert(strings_view(roots@).take(roots@.len() as int) =~= strings_view(roots@));
        }
        Traversal { pending }
    }

    /// The traversal has ended: nothing is pending.
    pub fn is_done(&self) -> (r: bool)
        ensures
            r == (self.pending_view().len() == 0),
    {
        self.pending.len() == 0
    }

    /// The directory the backend should examine next, if any.
    pub fn next_dir(&self) -> (r: Option<String>)
        ensures
            match r {
                Some(d) => self.pending_view().len() > 0 && d@ == self.pending_view()[0],
                None => self.pending_view().len() == 0,
            },
    {
        if self.pending.len() > 0 {
            Some(self.pending[0].clone())
        } else {
            None
        }
    }

    /// Consume the front directory together with the backend's answer for
    /// it: a worktree is reported and never descended into; listed
    /// subdirectories join the back of the queue in order; a failed
    /// listing becomes a warning and the scan goes on.
    pub fn step(&mut self, obs: Observation) -> (ev: StepEvent)
        requires
            old(self).pending_view().len() > 0,
        ensures
            match obs {
                Observation::Worktree { remotes } => {
                    &&& final(self).pending_view() == old(self).pending_view().drop_first()
                    &&& ev matches StepEvent::Found(repo) && repo@ == (RepoView {
                        path: old(self).pending_view()[0],
                        remotes: remotes_view(remotes@),
                    })
                },
                Observation::Subdirs { names } => {
                    &&& final(self).pending_view() == old(self).pending_view().drop_first()
                        + Seq::new(
                        names@.len(),
                        |i: int| join_spec(old(self).pending_view()[0], names@[i]@),
                    )
                    &&& ev matches StepEvent::Advanced
                },
                Observation::ListFailed => {
                    &&& final(self).pending_view() == old(self).pending_view().drop_first()
                    &&& ev matches StepEvent::Warn(w) && w@ == warning_view(
                        old(self).pending_view()[0],
                    )
                },
            },
    {
        let dir = match self.pending.pop_front() {
            Some(d) => d,
            None => vstd::pervasive::unreached(),
        };
        proof {
            assert(self.pending@.map_values(|s: String| s@) =~= old(
                self,
            ).pending_view().drop_first());
            assert(dir@ == old(self).pending_view()[0]);
        }
        match obs {
            Observation::Worktree { remotes } => {
                StepEvent::Found(LocalRepo { path: dir, remotes })
            }
            Observation::Subdirs { names } => {
                let ghost pending_mid = self.pending_view();
                let ghost d0 = dir@;
                let mut i: usize = 0;
                while i < names.len()
                    invariant
                        i <= names@.len(),
                        dir@ == d0,
                        self.pending_view() =~= pending_mid + Seq::new(
                            i as nat,
                            |k: int| join_spec(d0, names@[k]@),
                        ),
                    decreases names@.len() - i,
                {
                    let joined = path_join(dir.as_str(), names[i].as_str());
                    let ghost p_before = self.pending@;
                    self.pending.push_back(joined);
                    proof {
                        let x = self.pending@[self.pending@.len() - 1];
                        assert(self.pending@ == p_before.push(x));
                        lemma_strings_view_push(p_before, x);
                        let f = |k: int| join_spec(d0, names@[k]@);
                        assert(x@ == f(i as int));
                        assert(Seq::new((i + 1) as nat, f) =~= Seq::new(i as nat, f).push(
                            f(i as int),
                        ));
                        assert(pending_mid + Seq::new(i as nat, f).push(f(i as int)) =~= (
                        pending_mid + Seq::new(i as nat, f)).push(f(i as int)));
                        assert(self.pending_view() =~= pending_mid + Seq::new((i + 1) as nat, f));
                    }
                    i = i + 1;
                }
                proof {
                    assert(Seq::new(names@.len(), |k: int| join_spec(d0, names@[k]@)) =~= Seq::new(
                        names@.len(),
                        |i: int| join_spec(old(self).pending_view()[0], names@[i]@),
                    ));
                }
                StepEvent::Advanced
            }
            Observation::ListFailed => StepEvent::Warn(make_warning(dir.as_str())),
        }
    }
}

} // verus!
