use gitmoto::model::Remote;
use gitmoto::traversal::{scan, DirTree, NodeKind, Observation, StepEvent, Traversal};

fn plain(name: &str, children: Vec<DirTree>) -> DirTree {
    DirTree { name: name.to_string(), kind: NodeKind::Plain, children }
}

fn worktree(name: &str, remotes: Vec<Remote>, children: Vec<DirTree>) -> DirTree {
    DirTree { name: name.to_string(), kind: NodeKind::Worktree { remotes }, children }
}

fn unreadable(name: &str) -> DirTree {
    DirTree { name: name.to_string(), kind: NodeKind::Unreadable, children: vec![] }
}

fn repo_paths(roots: &Vec<(String, DirTree)>) -> Vec<String> {
    scan(roots).repos.iter().map(|r| r.path.clone()).collect()
}

#[test]
fn scan_reports_primary_worktree_and_skips_its_interior() {
    // root contains repoA/.git (directory) and repoA/sub: exactly repoA is
    // reported and sub is never reached.
    let tree = plain("root", vec![worktree("repoA", vec![], vec![plain("sub", vec![])])]);
    let roots = vec![("root".to_string(), tree)];
    let out = scan(&roots);
    assert_eq!(out.repos.len(), 1);
    assert_eq!(out.repos[0].path, "root/repoA");
    assert!(out.repos[0].remotes.is_empty());
    assert!(out.warnings.is_empty());
}

#[test]
fn scan_descends_past_linked_worktree_marker() {
    // repoB/.git exists only as a marker file, so repoB is an ordinary
    // directory: nothing is reported, but the scan still descends.
    let tree = plain("root", vec![plain("repoB", vec![plain("inner", vec![])])]);
    let roots = vec![("root".to_string(), tree)];
    let out = scan(&roots);
    assert!(out.repos.is_empty());
    assert!(out.warnings.is_empty());
}

#[test]
fn unreadable_root_yields_one_warning_and_no_repos() {
    let roots = vec![("secret".to_string(), unreadable("secret"))];
    let out = scan(&roots);
    assert!(out.repos.is_empty());
    assert_eq!(out.warnings, vec!["Failed to read secret".to_string()]);
}

#[test]
fn unreadable_subtree_does_not_stop_siblings() {
    // The sibling after the unreadable directory is still discovered.
    let tree = plain(
        "root",
        vec![unreadable("locked"), worktree("ok", vec![], vec![])],
    );
    let roots = vec![("root".to_string(), tree)];
    let out = scan(&roots);
    assert_eq!(out.repos.len(), 1);
    assert_eq!(out.repos[0].path, "root/ok");
    assert_eq!(out.warnings, vec!["Failed to read root/locked".to_string()]);
}

#[test]
fn scan_is_breadth_first() {
    // Shallow worktrees are reported before deeper ones.
    let tree = plain(
        "root",
        vec![
            plain("a", vec![worktree("deep", vec![], vec![])]),
            worktree("b", vec![], vec![]),
        ],
    );
    let roots = vec![("root".to_string(), tree)];
    assert_eq!(repo_paths(&roots), vec!["root/b".to_string(), "root/a/deep".to_string()]);
}

#[test]
fn rescan_of_unchanged_tree_is_identical() {
    let tree = plain(
        "root",
        vec![
            worktree("one", vec![Remote::new("origin".to_string(), "url1".to_string())], vec![]),
            plain("nest", vec![worktree("two", vec![], vec![])]),
        ],
    );
    let roots = vec![("root".to_string(), tree)];
    let first = repo_paths(&roots);
    let second = repo_paths(&roots);
    assert_eq!(first, second);
    assert_eq!(first, vec!["root/one".to_string(), "root/nest/two".to_string()]);
}

#[test]
fn roots_scan_independently_in_order() {
    let r1 = worktree("x", vec![], vec![]);
    let r2 = worktree("y", vec![], vec![]);
    let roots = vec![("p".to_string(), r1), ("q".to_string(), r2)];
    assert_eq!(repo_paths(&roots), vec!["p".to_string(), "q".to_string()]);
}

#[test]
fn scan_keeps_remotes_of_discovery_time() {
    let remotes = vec![
        Remote::new("origin".to_string(), "ssh://host/r".to_string()),
        Remote::new("backup".to_string(), "ssh://other/r".to_string()),
    ];
    let tree = worktree("repo", remotes, vec![]);
    let roots = vec![("repo".to_string(), tree)];
    let out = scan(&roots);
    assert_eq!(out.repos.len(), 1);
    assert_eq!(out.repos[0].remotes.len(), 2);
    assert_eq!(out.repos[0].remotes[0].name(), "origin");
    assert_eq!(out.repos[0].remotes[0].url(), "ssh://host/r");
    assert_eq!(out.repos[0].remotes[1].name(), "backup");
}

#[test]
fn engine_steps_through_queue_in_order() {
    let mut t = Traversal::new(&vec!["r1".to_string(), "r2".to_string()]);
    assert!(!t.is_done());
    assert_eq!(t.next_dir(), Some("r1".to_string()));

    // r1 is a worktree: it is reported and not descended into.
    let ev = t.step(Observation::Worktree {
        remotes: vec![Remote::new("origin".to_string(), "u".to_string())],
    });
    match ev {
        StepEvent::Found(repo) => {
            assert_eq!(repo.path, "r1");
            assert_eq!(repo.remotes.len(), 1);
        }
        _ => panic!("expected a repository"),
    }

    // r2 lists two subdirectories: they join the back of the queue.
    assert_eq!(t.next_dir(), Some("r2".to_string()));
    let ev = t.step(Observation::Subdirs { names: vec!["a".to_string(), "b".to_string()] });
    assert!(matches!(ev, StepEvent::Advanced));
    assert_eq!(t.next_dir(), Some("r2/a".to_string()));

    // r2/a cannot be listed: a warning, and the scan goes on.
    let ev = t.step(Observation::ListFailed);
    match ev {
        StepEvent::Warn(w) => assert_eq!(w, "Failed to read r2/a"),
        _ => panic!("expected a warning"),
    }

    assert_eq!(t.next_dir(), Some("r2/b".to_string()));
    let ev = t.step(Observation::Subdirs { names: vec![] });
    assert!(matches!(ev, StepEvent::Advanced));
    assert!(t.is_done());
    assert_eq!(t.next_dir(), None);
}
