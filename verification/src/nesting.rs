//! The separation law: a scan never descends beneath a reported
//! worktree, so no discovered repository path is a proper descendant of
//! another discovered repository path.
//!
//! The law is stated over directory trees whose entry names are what real
//! listings produce — non-empty, free of the path separator, and distinct
//! among siblings — and over root paths that do not end in a separator.

use vstd::prelude::*;

use crate::model::RepoView;
use crate::paths::join_spec;
use crate::text::is_prefix;
use crate::traversal::{
    forest_size, repos_under, repos_under_forest, scan_repos_spec, tree_size, DirTree, NodeKind,
    QItem,
};

verus! {

/// `desc` lies strictly beneath `anc`: it extends it past a separator.
pub open spec fn path_descends(anc: Seq<char>, desc: Seq<char>) -> bool {
    desc.len() > anc.len() && desc.take(anc.len() as int) == anc && desc[anc.len() as int] == '/'
}

/// `q` is `p` itself or lies beneath it.
pub open spec fn anchored(p: Seq<char>, q: Seq<char>) -> bool {
    q == p || path_descends(p, q)
}

/// A usable directory path: non-empty and without a trailing separator.
pub open spec fn good_path(p: Seq<char>) -> bool {
    p.len() > 0 && p[p.len() - 1] != '/'
}

/// A directory entry name as a listing produces it: non-empty, no
/// separator inside.
pub open spec fn wf_name(n: Seq<char>) -> bool {
    n.len() > 0 && forall|i: int| 0 <= i < n.len() ==> n[i] != '/'
}

/// Entry names are well-formed and distinct among siblings, recursively.
pub open spec fn wf_tree(t: DirTree) -> bool
    decreases tree_size(t), 0int,
{
    wf_forest(t.children@, 0)
}

/// Well-formedness of the subtrees `ts[i..]`.
pub open spec fn wf_forest(ts: Seq<DirTree>, i: int) -> bool
    decreases forest_size(ts, i), 1int,
{
    if i < 0 || i >= ts.len() {
        true
    } else {
        &&& wf_name(ts[i].name@)
        &&& (forall|j: int| i < j < ts.len() ==> (#[trigger] ts[j].name@) != ts[i].name@)
        &&& wf_tree(ts[i])
        &&& wf_forest(ts, i + 1)
    }
}

proof fn lemma_prefix_trans(a: Seq<char>, b: Seq<char>, c: Seq<char>)
    requires
        is_prefix(a, b),
        is_prefix(b, c),
    ensures
        is_prefix(a, c),
{
    assert forall|k: int| 0 <= k < a.len() implies c.take(a.len() as int)[k] == a[k] by {
        assert(b.take(a.len() as int)[k] == a[k]);
        assert(c.take(b.len() as int)[k] == b[k]);
    }
    assert(c.take(a.len() as int) =~= a);
}

proof fn lemma_anchored_prefix(p: Seq<char>, q: Seq<char>)
    requires
        anchored(p, q),
    ensures
        is_prefix(p, q),
{
    if q == p {
        assert(q.take(p.len() as int) =~= p);
    }
}

/// Joining a well-formed name onto a usable path appends exactly one
/// separator and the name; the result lies beneath the path and is again
/// usable.
proof fn lemma_join_structure(p: Seq<char>, n: Seq<char>)
    requires
        good_path(p),
        wf_name(n),
    ensures
        join_spec(p, n) == p + seq!['/'] + n,
        path_descends(p, join_spec(p, n)),
        good_path(join_spec(p, n)),
{
    assert(n[0] != '/');
    let j = p + seq!['/'] + n;
    assert(join_spec(p, n) == j) by {
        assert(p + seq!['/'] + n =~= join_spec(p, n));
    }
    assert(j.take(p.len() as int) =~= p);
    assert(j[p.len() as int] == '/');
    assert(j[j.len() - 1] == n[n.len() - 1]);
}

/// Two repositories anchored under different sibling names cannot lie one
/// beneath the other.
proof fn lemma_cross_sibling(
    p: Seq<char>,
    ni: Seq<char>,
    nj: Seq<char>,
    r1: Seq<char>,
    r2: Seq<char>,
)
    requires
        wf_name(ni),
        wf_name(nj),
        ni != nj,
        anchored(p + seq!['/'] + ni, r1),
        anchored(p + seq!['/'] + nj, r2),
    ensures
        !path_descends(r1, r2),
{
    let pi = p + seq!['/'] + ni;
    let pj = p + seq!['/'] + nj;
    let li = pi.len() as int;
    let lj = pj.len() as int;
    if path_descends(r1, r2) {
        lemma_anchored_prefix(pi, r1);
        assert(is_prefix(r1, r2));
        lemma_prefix_trans(pi, r1, r2);
        lemma_anchored_prefix(pj, r2);
        if ni.len() == nj.len() {
            assert(ni =~= nj) by {
                assert forall|k: int| 0 <= k < ni.len() implies ni[k] == nj[k] by {
                    assert(pi[p.len() + 1 + k] == ni[k]);
                    assert(pj[p.len() + 1 + k] == nj[k]);
                    assert(r2.take(li)[p.len() + 1 + k] == r2[p.len() + 1 + k]);
                    assert(r2.take(lj)[p.len() + 1 + k] == r2[p.len() + 1 + k]);
                }
            }
            assert(false);
        } else if ni.len() < nj.len() {
            assert(li < lj);
            assert(r2[li] == pj[li]) by {
                assert(r2.take(lj)[li] == r2[li]);
            }
            assert(pj[li] == nj[ni.len() as int]);
            assert(pj[li] != '/');
            if r1 == pi {
                assert(r2[li] == '/');
            } else {
                assert(r1[li] == '/');
                assert(r2.take(r1.len() as int)[li] == r2[li]);
                assert(r2[li] == '/');
            }
            assert(false);
        } else {
            assert(lj < li);
            assert(li <= r2.len());
            assert(r2[lj] == pi[lj]) by {
                assert(r2.take(li)[lj] == r2[lj]);
            }
            assert(pi[lj] == ni[nj.len() as int]);
            assert(pi[lj] != '/');
            if r2 == pj {
                assert(r2.len() == lj);
                assert(false);
            } else {
                assert(r2[lj] == '/');
            }
            assert(false);
        }
    }
}

/// Every repository a subtree contributes lies at the subtree's own path
/// or beneath it, and its path is again usable.
proof fn lemma_repos_anchored(path: Seq<char>, t: DirTree)
    requires
        good_path(path),
        wf_tree(t),
    ensures
        forall|k: int|
            0 <= k < repos_under(path, t).len() ==> anchored(
                path,
                (#[trigger] repos_under(path, t)[k]).path,
            ) && good_path(repos_under(path, t)[k].path),
    decreases tree_size(t), 0int,
{
    match t.kind {
        NodeKind::Worktree { remotes } => {
        }
        NodeKind::Plain => {
            lemma_repos_anchored_forest(path, t.children@, 0);
            assert forall|k: int| 0 <= k < repos_under(path, t).len() implies anchored(
                path,
                (#[trigger] repos_under(path, t)[k]).path,
            ) && good_path(repos_under(path, t)[k].path) by {
                assert(repos_under(path, t)[k] == repos_under_forest(path, t.children@, 0)[k]);
            }
        }
        NodeKind::Unreadable => {
        }
    }
}

/// Every repository the subtrees `ts[i..]` contribute lies strictly
/// beneath `path`.
proof fn lemma_repos_anchored_forest(path: Seq<char>, ts: Seq<DirTree>, i: int)
    requires
        good_path(path),
        wf_forest(ts, i),
    ensures
        forall|k: int|
            0 <= k < repos_under_forest(path, ts, i).len() ==> path_descends(
                path,
                (#[trigger] repos_under_forest(path, ts, i)[k]).path,
            ) && good_path(repos_under_forest(path, ts, i)[k].path),
    decreases forest_size(ts, i), 1int,
{
    if 0 <= i < ts.len() {
        let pi = join_spec(path, ts[i].name@);
        lemma_join_structure(path, ts[i].name@);
        lemma_repos_anchored(pi, ts[i]);
        lemma_repos_anchored_forest(path, ts, i + 1);
        let a = repos_under(pi, ts[i]);
        let b = repos_under_forest(path, ts, i + 1);
        assert forall|k: int| 0 <= k < repos_under_forest(path, ts, i).len() implies path_descends(
            path,
            (#[trigger] repos_under_forest(path, ts, i)[k]).path,
        ) && good_path(repos_under_forest(path, ts, i)[k].path) by {
            if k < a.len() {
                assert(repos_under_forest(path, ts, i)[k] == a[k]);
                let rp = a[k].path;
                if rp == pi {
                } else {
                    assert(path_descends(pi, rp));
                    lemma_anchored_prefix(pi, rp);
                    assert(is_prefix(path, pi)) by {
                        assert(pi.take(path.len() as int) =~= path);
                    }
                    lemma_prefix_trans(path, pi, rp);
                    assert(rp[path.len() as int] == pi[path.len() as int]) by {
                        assert(rp.take(pi.len() as int)[path.len() as int] == rp[path.len() as int]);
                    }
                }
            } else {
                assert(repos_under_forest(path, ts, i)[k] == b[k - a.len()]);
            }
        }
    }
}

/// No repository contributed by the subtrees `ts[j..]` lies beneath, or
/// above, a repository anchored under a sibling name that none of them
/// carries.
proof fn lemma_forest_vs_anchor(
    path: Seq<char>,
    ts: Seq<DirTree>,
    j: int,
    n0: Seq<char>,
    r1: Seq<char>,
)
    requires
        good_path(path),
        wf_forest(ts, j),
        wf_name(n0),
        forall|k: int| j <= k < ts.len() ==> (#[trigger] ts[k].name@) != n0,
        anchored(path + seq!['/'] + n0, r1),
    ensures
        forall|k: int|
            0 <= k < repos_under_forest(path, ts, j).len() ==> !path_descends(
                r1,
                (#[trigger] repos_under_forest(path, ts, j)[k]).path,
            ) && !path_descends(repos_under_forest(path, ts, j)[k].path, r1),
    decreases forest_size(ts, j), 1int,
{
    if 0 <= j < ts.len() {
        let pj = join_spec(path, ts[j].name@);
        lemma_join_structure(path, ts[j].name@);
        lemma_repos_anchored(pj, ts[j]);
        lemma_forest_vs_anchor(path, ts, j + 1, n0, r1);
        let a = repos_under(pj, ts[j]);
        let b = repos_under_forest(path, ts, j + 1);
        assert forall|k: int| 0 <= k < repos_under_forest(path, ts, j).len() implies !path_descends(
            r1,
            (#[trigger] repos_under_forest(path, ts, j)[k]).path,
        ) && !path_descends(repos_under_forest(path, ts, j)[k].path, r1) by {
            if k < a.len() {
                assert(repos_under_forest(path, ts, j)[k] == a[k]);
                let rp = a[k].path;
                assert(anchored(path + seq!['/'] + ts[j].name@, rp));
                lemma_cross_sibling(path, n0, ts[j].name@, r1, rp);
                lemma_cross_sibling(path, ts[j].name@, n0, rp, r1);
            } else {
                assert(repos_under_forest(path, ts, j)[k] == b[k - a.len()]);
            }
        }
    }
}

/// Pairwise separation of everything one subtree contributes.
proof fn lemma_repos_separated(path: Seq<char>, t: DirTree)
    requires
        good_path(path),
        wf_tree(t),
    ensures
        forall|k1: int, k2: int|
            0 <= k1 < repos_under(path, t).len() && 0 <= k2 < repos_under(path, t).len()
                ==> !path_descends(
                (#[trigger] repos_under(path, t)[k1]).path,
                (#[trigger] repos_under(path, t)[k2]).path,
            ),
    decreases tree_size(t), 0int,
{
    match t.kind {
        NodeKind::Worktree { remotes } => {
        }
        NodeKind::Plain => {
            lemma_repos_separated_forest(path, t.children@, 0);
            assert forall|k1: int, k2: int|
                0 <= k1 < repos_under(path, t).len() && 0 <= k2 < repos_under(path, t).len()
                implies !path_descends(
                (#[trigger] repos_under(path, t)[k1]).path,
                (#[trigger] repos_under(path, t)[k2]).path,
            ) by {
                assert(repos_under(path, t)[k1] == repos_under_forest(path, t.children@, 0)[k1]);
                assert(repos_under(path, t)[k2] == repos_under_forest(path, t.children@, 0)[k2]);
            }
        }
        NodeKind::Unreadable => {
        }
    }
}

/// Pairwise separation of everything the subtrees `ts[i..]` contribute.
proof fn lemma_repos_separated_forest(path: Seq<char>, ts: Seq<DirTree>, i: int)
    requires
        good_path(path),
        wf_forest(ts, i),
    ensures
        forall|k1: int, k2: int|
            0 <= k1 < repos_under_forest(path, ts, i).len() && 0 <= k2 < repos_under_forest(
                path,
                ts,
                i,
            ).len() ==> !path_descends(
                (#[trigger] repos_under_forest(path, ts, i)[k1]).path,
                (#[trigger] repos_under_forest(path, ts, i)[k2]).path,
            ),
    decreases forest_size(ts, i), 1int,
{
    if 0 <= i < ts.len() {
        let pi = join_spec(path, ts[i].name@);
        lemma_join_structure(path, ts[i].name@);
        lemma_repos_anchored(pi, ts[i]);
        lemma_repos_separated(pi, ts[i]);
        lemma_repos_separated_forest(path, ts, i + 1);
        let a = repos_under(pi, ts[i]);
        let b = repos_under_forest(path, ts, i + 1);
        assert forall|k1: int, k2: int|
            0 <= k1 < repos_under_forest(path, ts, i).len() && 0 <= k2 < repos_under_forest(
                path,
                ts,
                i,
            ).len() implies !path_descends(
            (#[trigger] repos_under_forest(path, ts, i)[k1]).path,
            (#[trigger] repos_under_forest(path, ts, i)[k2]).path,
        ) by {
            let e1 = repos_under_forest(path, ts, i)[k1];
            let e2 = repos_under_forest(path, ts, i)[k2];
            if k1 < a.len() {
                assert(e1 == a[k1]);
            } else {
                assert(e1 == b[k1 - a.len()]);
            }
            if k2 < a.len() {
                assert(e2 == a[k2]);
            } else {
                assert(e2 == b[k2 - a.len()]);
            }
            if k1 < a.len() && k2 < a.len() {
            } else if k1 >= a.len() && k2 >= a.len() {
            } else if k1 < a.len() {
                lemma_forest_vs_anchor(path, ts, i + 1, ts[i].name@, e1.path);
            } else {
                lemma_forest_vs_anchor(path, ts, i + 1, ts[i].name@, e2.path);
            }
        }
    }
}

/// Law: traversal never descends beneath a confirmed primary worktree —
/// over any well-formed directory tree, no repository path the scan
/// reports is a proper descendant of another reported repository path.
pub proof fn lemma_no_nested_repos(path: Seq<char>, t: DirTree)
    requires
        good_path(path),
        wf_tree(t),
    ensures
        forall|k1: int, k2: int|
            0 <= k1 < scan_repos_spec(seq![QItem { path, tree: t }]).len() && 0 <= k2
                < scan_repos_spec(seq![QItem { path, tree: t }]).len() ==> !path_descends(
                (#[trigger] scan_repos_spec(seq![QItem { path, tree: t }])[k1]).path,
                (#[trigger] scan_repos_spec(seq![QItem { path, tree: t }])[k2]).path,
            ),
{
    broadcast use vstd::multiset::group_multiset_axioms;
    broadcast use vstd::seq_lib::group_to_multiset_ensures;

    let s = scan_repos_spec(seq![QItem { path, tree: t }]);
    let r = repos_under(path, t);
    crate::traversal::lemma_discovery_exact(path, t);
    lemma_repos_separated(path, t);
    assert forall|k1: int, k2: int| 0 <= k1 < s.len() && 0 <= k2 < s.len() implies !path_descends(
        (#[trigger] s[k1]).path,
        (#[trigger] s[k2]).path,
    ) by {
        assert(s.contains(s[k1]));
        assert(s.to_multiset().contains(s[k1]));
        assert(r.to_multiset().contains(s[k1]));
        assert(r.contains(s[k1]));
        assert(s.contains(s[k2]));
        assert(s.to_multiset().contains(s[k2]));
        assert(r.to_multiset().contains(s[k2]));
        assert(r.contains(s[k2]));
        let m1 = choose|m: int| 0 <= m < r.len() && r[m] == s[k1];
        let m2 = choose|m: int| 0 <= m < r.len() && r[m] == s[k2];
        assert(!path_descends(r[m1].path, r[m2].path));
    }
}

} // verus!
