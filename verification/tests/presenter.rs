use gitmoto::model::{LocalRepo, Model, Remote};
use gitmoto::presenter::{constrained_by, is_quit, KeyInput, Presenter, UiKey};

fn repo(path: &str) -> LocalRepo {
    LocalRepo::new(path.to_string(), vec![])
}

fn presenter_with(paths: &[&str]) -> Presenter {
    let mut p = Presenter::new(Some("/home/u".to_string()));
    for path in paths {
        p.add_local_repo(repo(path));
    }
    p
}

fn key(code: UiKey) -> KeyInput {
    KeyInput { code, ctrl: false }
}

fn filtered_paths(p: &Presenter) -> Vec<String> {
    let (idx, _) = p.filtered_repos();
    idx.iter().map(|i| p.model.repos[*i].path.clone()).collect()
}

#[test]
fn constrained_by_clamps_both_ends() {
    assert_eq!(constrained_by(-5, 3), 0);
    assert_eq!(constrained_by(0, 3), 0);
    assert_eq!(constrained_by(2, 3), 2);
    assert_eq!(constrained_by(7, 3), 2);
}

#[test]
fn model_keeps_repos_sorted_and_unique_by_path() {
    let mut m = Model::new();
    m.add_local_repo(repo("b"));
    m.add_local_repo(repo("a"));
    m.add_local_repo(LocalRepo::new(
        "b".to_string(),
        vec![Remote::new("origin".to_string(), "u".to_string())],
    ));
    assert_eq!(m.len(), 2);
    assert_eq!(m.repos[0].path, "a");
    assert_eq!(m.repos[1].path, "b");
    assert_eq!(m.repos[1].remotes.len(), 1);
}

#[test]
fn filter_words_must_all_occur() {
    let mut p = presenter_with(&["/home/u/src/alpha", "/home/u/src/beta", "/opt/alpha"]);
    p.set_filter("alpha".to_string());
    assert_eq!(
        filtered_paths(&p),
        vec!["/home/u/src/alpha".to_string(), "/opt/alpha".to_string()],
    );
    p.set_filter("alpha src".to_string());
    assert_eq!(filtered_paths(&p), vec!["/home/u/src/alpha".to_string()]);
    p.set_filter("gamma".to_string());
    assert!(filtered_paths(&p).is_empty());
}

#[test]
fn empty_filter_passes_everything() {
    let p = presenter_with(&["/a", "/b"]);
    assert_eq!(filtered_paths(&p), vec!["/a".to_string(), "/b".to_string()]);
}

#[test]
fn scroll_moves_selection_and_clamps() {
    let mut p = presenter_with(&["/a", "/b", "/c"]);
    p.set_view_height(10);
    p.scroll(1);
    assert_eq!(p.selected.as_ref().map(|s| s.path.clone()), Some("/b".to_string()));
    p.scroll(1);
    assert_eq!(p.selected.as_ref().map(|s| s.path.clone()), Some("/c".to_string()));
    p.scroll(5);
    assert_eq!(p.selected.as_ref().map(|s| s.path.clone()), Some("/c".to_string()));
    p.scroll(-100);
    assert_eq!(p.selected.as_ref().map(|s| s.path.clone()), Some("/a".to_string()));
}

#[test]
fn scroll_on_empty_filter_result_changes_nothing() {
    let mut p = presenter_with(&["/a"]);
    p.set_filter("zzz".to_string());
    p.scroll(1);
    assert!(p.selected.is_none());
}

#[test]
fn control_c_quits_and_changes_nothing() {
    let mut p = presenter_with(&["/a"]);
    let out = p.handle_key(KeyInput { code: UiKey::Char('c'), ctrl: true });
    assert!(out.quit);
    assert!(out.open_path.is_none());
    assert!(is_quit(&KeyInput { code: UiKey::Char('C'), ctrl: true }));
    assert!(!is_quit(&KeyInput { code: UiKey::Char('c'), ctrl: false }));
}

#[test]
fn escape_clears_the_filter() {
    let mut p = presenter_with(&["/a"]);
    p.set_filter("abc".to_string());
    let out = p.handle_key(key(UiKey::Esc));
    assert!(!out.quit);
    assert_eq!(p.repo_filter, "");
}

#[test]
fn characters_and_backspace_edit_the_filter() {
    let mut p = presenter_with(&[]);
    p.handle_key(key(UiKey::Char('a')));
    p.handle_key(key(UiKey::Char('b')));
    assert_eq!(p.repo_filter, "ab");
    p.handle_key(key(UiKey::Backspace));
    assert_eq!(p.repo_filter, "a");
    p.handle_key(key(UiKey::Backspace));
    p.handle_key(key(UiKey::Backspace));
    assert_eq!(p.repo_filter, "");
}

#[test]
fn enter_asks_to_open_the_selection() {
    let mut p = presenter_with(&["/a", "/b"]);
    let none = p.handle_key(key(UiKey::Enter));
    assert!(none.open_path.is_none());
    p.handle_key(key(UiKey::Down));
    let out = p.handle_key(key(UiKey::Enter));
    assert_eq!(out.open_path, Some("/b".to_string()));
}

#[test]
fn display_path_collapses_home_to_tilde() {
    let p = presenter_with(&[]);
    assert_eq!(p.display_path("/home/u/src/x").as_str(), "~/src/x");
    assert_eq!(p.display_path("/opt/x").as_str(), "/opt/x");
    let bare = Presenter::new(None);
    assert_eq!(bare.display_path("/home/u/src/x").as_str(), "/home/u/src/x");
}

#[test]
fn view_plan_counts_and_skips() {
    let mut p = presenter_with(&["/a", "/b", "/c", "/d"]);
    p.set_view_height(2);
    let v = p.view_plan();
    assert_eq!(v.n_filtered, 4);
    assert_eq!(v.total, 4);
    assert_eq!(v.skip, 0);
    assert_eq!(v.scrollbar_content_length, 2);
    assert!(v.selected_row.is_none());
    p.scroll(3);
    let v = p.view_plan();
    assert_eq!(v.selected_row, Some(3));
    // the selection sits on window row min(view_pos, 3); the view skips
    // enough rows to keep it visible
    assert!(v.skip <= 3);
}
