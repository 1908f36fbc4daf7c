//! The set of discovered repositories, keyed by path.

use vstd::prelude::*;

verus! {

/// A configured remote of a git repository: a name and a URL.
pub struct Remote {
    name: String,
    url: String,
}

/// Mathematical image of a [`Remote`].
pub struct RemoteView {
    pub name: Seq<char>,
    pub url: Seq<char>,
}

impl View for Remote {
    type V = RemoteView;

    closed spec fn view(&self) -> RemoteView {
        RemoteView { name: self.name@, url: self.url@ }
    }
}

impl Remote {
    pub fn new(name: String, url: String) -> (r: Remote)
        ensures
            r@ == (RemoteView { name: name@, url: url@ }),
    {
        Remote { name, url }
    }

    pub fn name(&self) -> (r: &str)
        ensures
            r@ == self@.name,
    {
        self.name.as_str()
    }

    pub fn url(&self) -> (r: &str)
        ensures
            r@ == self@.url,
    {
        self.url.as_str()
    }
}

impl Clone for Remote {
    fn clone(&self) -> (r: Remote)
        ensures
            r@ == self@,
    {
        Remote { name: self.name.clone(), url: self.url.clone() }
    }
}

/// The view of a sequence of remotes.
pub open spec fn remotes_view(s: Seq<Remote>) -> Seq<RemoteView> {
    s.map_values(|r: Remote| r@)
}

/// A discovered repository: its path and the remotes found at discovery time.
pub struct LocalRepo {
    pub path: String,
    pub remotes: Vec<Remote>,
}

/// Mathematical image of a [`LocalRepo`].
pub struct RepoView {
    pub path: Seq<char>,
    pub remotes: Seq<RemoteView>,
}

impl View for LocalRepo {
    type V = RepoView;

    open spec fn view(&self) -> RepoView {
        RepoView { path: self.path@, remotes: remotes_view(self.remotes@) }
    }
}

impl LocalRepo {
    pub fn new(path: String, remotes: Vec<Remote>) -> (r: LocalRepo)
        ensures
            r@ == (RepoView { path: path@, remotes: remotes_view(remotes@) }),
    {
        LocalRepo { path, remotes }
    }
}

/// Clone a vector of remotes, preserving its view.
pub fn clone_remotes(v: &Vec<Remote>) -> (r: Vec<Remote>)
    ensures
        remotes_view(r@) == remotes_view(v@),
{
    let mut remotes: Vec<Remote> = Vec::new();
    let mut i: usize = 0;
    while i < v.len()
        invariant
            i <= v.len(),
            remotes@.len() == i as int,
            forall|j: int| 0 <= j < i ==> remotes@[j]@ == v@[j]@,
        decreases v.len() - i,
    {
        remotes.push(v[i].clone());
        i = i + 1;
    }
    proof {
        assert(remotes_view(remotes@) =~= remotes_view(v@));
    }
    remotes
}

impl Clone for LocalRepo {
    fn clone(&self) -> (r: LocalRepo)
        ensures
            r@ == self@,
    {
        LocalRepo { path: self.path.clone(), remotes: clone_remotes(&self.remotes) }
    }
}

/// Strict lexicographic order on character sequences, by code point.
pub open spec fn lt_seq(a: Seq<char>, b: Seq<char>) -> bool
    decreases a.len(),
{
    if b.len() == 0 {
        false
    } else if a.len() == 0 {
        true
    } else if a[0] != b[0] {
        a[0] < b[0]
    } else {
        lt_seq(a.drop_first(), b.drop_first())
    }
}

/// Trichotomy: two sequences that are not equal are ordered one way or the other.
pub proof fn lemma_lt_seq_connected(a: Seq<char>, b: Seq<char>)
    ensures
        a == b || lt_seq(a, b) || lt_seq(b, a),
    decreases a.len(),
{
    if b.len() == 0 {
        if a.len() == 0 {
            assert(a =~= b);
        }
    } else if a.len() == 0 {
    } else if a[0] != b[0] {
    } else {
        lemma_lt_seq_connected(a.drop_first(), b.drop_first());
        if a.drop_first() == b.drop_first() {
            assert(a.drop_first().len() == b.drop_first().len());
            assert forall|i: int| 0 <= i < a.len() implies a[i] == b[i] by {
                if i >= 1 {
                    assert(a[i] == a.drop_first()[i - 1]);
                    assert(b[i] == b.drop_first()[i - 1]);
                }
            }
            assert(a =~= b);
        }
    }
}

pub proof fn lemma_lt_seq_irreflexive(a: Seq<char>)
    ensures
        !lt_seq(a, a),
    decreases a.len(),
{
    if a.len() > 0 {
        lemma_lt_seq_irreflexive(a.drop_first());
    }
}

pub proof fn lemma_lt_seq_transitive(a: Seq<char>, b: Seq<char>, c: Seq<char>)
    requires
        lt_seq(a, b),
        lt_seq(b, c),
    ensures
        lt_seq(a, c),
    decreases a.len() + b.len() + c.len(),
{
    if b.len() == 0 {
    } else if c.len() == 0 {
    } else if a.len() == 0 {
    } else if a[0] == b[0] && b[0] == c[0] {
        lemma_lt_seq_transitive(a.drop_first(), b.drop_first(), c.drop_first());
    }
}

/// Exact character-wise equality of two strings.
pub fn eq_str(a: &String, b: &String) -> (r: bool)
    ensures
        r == (a@ == b@),
{
    a.eq(b)
}

/// Whether `a` precedes `b` in strict lexicographic order by code point.
pub fn lt_str(a: &String, b: &String) -> (r: bool)
    ensures
        r == lt_seq(a@, b@),
{
    let ab = a.as_str();
    let bb = b.as_str();
    let alen = ab.unicode_len();
    let blen = bb.unicode_len();
    let mut i: usize = 0;
    proof {
        assert(a@.skip(0) =~= a@);
        assert(b@.skip(0) =~= b@);
    }
    loop
        invariant
            i <= alen,
            i <= blen,
            alen == a@.len(),
            blen == b@.len(),
            ab@ == a@,
            bb@ == b@,
            lt_seq(a@, b@) == lt_seq(a@.skip(i as int), b@.skip(i as int)),
        decreases alen - i,
    {
        if i >= blen {
            proof {
                assert(b@.skip(i as int).len() == 0);
            }
            return false;
        }
        if i >= alen {
            proof {
                assert(a@.skip(i as int).len() == 0);
                assert(b@.skip(i as int).len() > 0);
            }
            return true;
        }
        let ca = ab.get_char(i);
        let cb = bb.get_char(i);
        proof {
            let sa = a@.skip(i as int);
            let sb = b@.skip(i as int);
            assert(sa[0] == a@[i as int]);
            assert(sb[0] == b@[i as int]);
            assert(sa.drop_first() =~= a@.skip(i + 1));
            assert(sb.drop_first() =~= b@.skip(i + 1));
        }
        if ca != cb {
            return ca < cb;
        }
        i = i + 1;
    }
}

/// The set of discovered repositories, ordered by path.
///
/// Well-formedness: paths are strictly increasing, hence unique — the
/// sequence behaves as a mapping keyed by path.
pub struct Model {
    pub repos: Vec<LocalRepo>,
}

/// The views of the repositories a model holds.
pub open spec fn repos_view(s: Seq<LocalRepo>) -> Seq<RepoView> {
    s.map_values(|r: LocalRepo| r@)
}

impl Model {
    /// Paths strictly increasing (so each path occurs at most once).
    pub open spec fn wf(&self) -> bool {
        forall|i: int, j: int|
            0 <= i < j < self.repos@.len() ==> lt_seq(
                #[trigger] self.repos@[i]@.path,
                #[trigger] self.repos@[j]@.path,
            )
    }

    /// The set of paths currently present.
    pub open spec fn path_set(&self) -> Set<Seq<char>> {
        Set::new(
            |p: Seq<char>|
                exists|i: int|
                    0 <= i < self.repos@.len() && #[trigger] self.repos@[i]@.path == p,
        )
    }

    pub fn new() -> (m: Model)
        ensures
            m.wf(),
            m.repos@.len() == 0,
    {
        Model { repos: Vec::new() }
    }

    /// Insert a repository keyed by its path: an existing entry with the
    /// same path is replaced, otherwise the repository enters at its
    /// ordered position.
    pub fn add_local_repo(&mut self, repo: LocalRepo)
        requires
            old(self).wf(),
        ensures
            final(self).wf(),
            final(self).path_set() =~= old(self).path_set().insert(repo@.path),
            forall|i: int|
                0 <= i < final(self).repos@.len() && #[trigger] final(self).repos@[i]@.path
                    == repo@.path ==> final(self).repos@[i]@ == repo@,
            forall|i: int|
                0 <= i < final(self).repos@.len() && #[trigger] final(self).repos@[i]@.path
                    != repo@.path ==> repos_view(old(self).repos@).contains(
                    final(self).repos@[i]@,
                ),
            final(self).repos@.len() == if old(self).path_set().contains(repo@.path) {
                old(self).repos@.len() as int
            } else {
                old(self).repos@.len() + 1 as int
            },
    {
        let ghost old_repos = self.repos@;
        let i = find_pos(&self.repos, &repo.path);
        let replace = if i < self.repos.len() { eq_str(&self.repos[i].path, &repo.path) } else {
            false
        };
        if replace {
            self.repos.remove(i);
            self.repos.insert(i, repo);
            proof {
                assert(self.repos@ =~= old_repos.update(i as int, self.repos@[i as int]));
                assert forall|p: Seq<char>| self.path_set().contains(p) implies old(
                    self,
                ).path_set().insert(repo@.path).contains(p) by {
                    let k = choose|k: int|
                        0 <= k < self.repos@.len() && #[trigger] self.repos@[k]@.path == p;
                    if k != i {
                        assert(old_repos[k]@.path == p);
                    }
                }
                assert forall|p: Seq<char>| old(self).path_set().insert(repo@.path).contains(p)
                    implies self.path_set().contains(p) by {
                    if p == repo@.path {
                        assert(self.repos@[i as int]@.path == p);
                    } else {
                        let k = choose|k: int|
                            0 <= k < old_repos.len() && #[trigger] old_repos[k]@.path == p;
                        assert(self.repos@[k]@.path == p);
                    }
                }
                assert(old(self).path_set().contains(repo@.path)) by {
                    assert(old_repos[i as int]@.path == repo@.path);
                }
                assert forall|k: int|
                    0 <= k < self.repos@.len() && #[trigger] self.repos@[k]@.path != repo@.path
                    implies repos_view(old_repos).contains(self.repos@[k]@) by {
                    assert(repos_view(old_repos)[k] == self.repos@[k]@);
                }
            }
        } else {
            proof {
                if i < old_repos.len() {
                    lemma_lt_seq_connected(old_repos[i as int]@.path, repo@.path);
                }
            }
            self.repos.insert(i, repo);
            proof {
                let n = self.repos@.len();
                assert forall|a: int, b: int| 0 <= a < b < n implies lt_seq(
                    #[trigger] self.repos@[a]@.path,
                    #[trigger] self.repos@[b]@.path,
                ) by {
                    if b < i {
                        assert(self.repos@[a]@.path == old_repos[a]@.path);
                        assert(self.repos@[b]@.path == old_repos[b]@.path);
                    } else if a > i {
                        assert(self.repos@[a]@.path == old_repos[a - 1]@.path);
                        assert(self.repos@[b]@.path == old_repos[b - 1]@.path);
                    } else if b == i {
                        assert(self.repos@[a]@.path == old_repos[a]@.path);
                    } else if a == i {
                        assert(self.repos@[b]@.path == old_repos[b - 1]@.path);
                        if b - 1 > i {
                            lemma_lt_seq_transitive(
                                repo@.path,
                                old_repos[i as int]@.path,
                                old_repos[b - 1]@.path,
                            );
                        }
                    } else {
                        assert(self.repos@[a]@.path == old_repos[a]@.path);
                        assert(self.repos@[b]@.path == old_repos[b - 1]@.path);
                    }
                }
                assert forall|p: Seq<char>| self.path_set().contains(p) implies old(
                    self,
                ).path_set().insert(repo@.path).contains(p) by {
                    let k = choose|k: int|
                        0 <= k < self.repos@.len() && #[trigger] self.repos@[k]@.path == p;
                    if k < i {
                        assert(old_repos[k]@.path == p);
                    } else if k > i {
                        assert(old_repos[k - 1]@.path == p);
                    }
                }
                assert forall|p: Seq<char>| old(self).path_set().insert(repo@.path).contains(p)
                    implies self.path_set().contains(p) by {
                    if p == repo@.path {
                        assert(self.repos@[i as int]@.path == p);
                    } else {
                        let k = choose|k: int|
                            0 <= k < old_repos.len() && #[trigger] old_repos[k]@.path == p;
                        if k < i {
                            assert(self.repos@[k]@.path == p);
                        } else {
                            assert(self.repos@[k + 1]@.path == p);
                        }
                    }
                }
                assert(!old(self).path_set().contains(repo@.path)) by {
                    if old(self).path_set().contains(repo@.path) {
                        let k = choose|k: int|
                            0 <= k < old_repos.len() && #[trigger] old_repos[k]@.path
                                == repo@.path;
                        if k < i {
                            lemma_lt_seq_irreflexive(repo@.path);
                        } else if k == i {
                            lemma_lt_seq_irreflexive(repo@.path);
                        } else {
                            assert(lt_seq(old_repos[i as int]@.path, old_repos[k]@.path));
                            lemma_lt_seq_connected(old_repos[i as int]@.path, repo@.path);
                            lemma_lt_seq_irreflexive(old_repos[i as int]@.path);
                        }
                    }
                }
                assert forall|k: int|
                    0 <= k < self.repos@.len() && #[trigger] self.repos@[k]@.path != repo@.path
                    implies repos_view(old_repos).contains(self.repos@[k]@) by {
                    if k < i {
                        assert(repos_view(old_repos)[k] == self.repos@[k]@);
                    } else if k > i {
                        assert(repos_view(old_repos)[k - 1] == self.repos@[k]@);
                    }
                }
            }
        }
    }

    pub fn len(&self) -> (n: usize)
        ensures
            n == self.repos@.len(),
    {
        self.repos.len()
    }
}

/// Position of the first repository whose path does not precede `path`.
fn find_pos(repos: &Vec<LocalRepo>, path: &String) -> (i: usize)
    ensures
        i <= repos@.len(),
        forall|j: int| 0 <= j < i ==> lt_seq(#[trigger] repos@[j]@.path, path@),
        i < repos@.len() ==> !lt_seq(repos@[i as int]@.path, path@),
{
    let mut i: usize = 0;
    while i < repos.len()
        invariant
            i <= repos@.len(),
            forall|j: int| 0 <= j < i ==> lt_seq(#[trigger] repos@[j]@.path, path@),
        decreases repos@.len() - i,
    {
        if !lt_str(&repos[i].path, path) {
            return i;
        }
        i = i + 1;
    }
    i
}

} // verus!
