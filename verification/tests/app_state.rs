use gitmoto::app::{App, LocalRepo, Remote};
use gitmoto::filesystem::{Event, Request};
use gitmoto::handler::handle_filesystem_event;
use gitmoto::model::Model;
use gitmoto::presenter::{KeyInput, UiKey};

#[test]
fn quit_stops_the_application() {
    let mut a = App::new();
    assert!(a.running);
    a.quit();
    assert!(!a.running);
}

#[test]
fn app_keys_edit_the_filter_and_escape_resets_it() {
    let mut a = App::new();
    a.key(KeyInput { code: UiKey::Char('x'), ctrl: false });
    a.key(KeyInput { code: UiKey::Char('y'), ctrl: false });
    assert_eq!(a.repo_filter, "xy");
    a.key(KeyInput { code: UiKey::Backspace, ctrl: false });
    assert_eq!(a.repo_filter, "x");
    a.key(KeyInput { code: UiKey::Esc, ctrl: false });
    assert_eq!(a.repo_filter, "");
}

#[test]
fn app_filters_repos_by_every_word() {
    let mut a = App::new();
    a.add_local_repo(LocalRepo::new("/srv/alpha".to_string(), vec![]));
    a.add_local_repo(LocalRepo::new("/srv/beta".to_string(), vec![]));
    a.key(KeyInput { code: UiKey::Char('a'), ctrl: false });
    a.key(KeyInput { code: UiKey::Char('l'), ctrl: false });
    let idx = a.filtered_repos();
    let paths: Vec<String> = idx.iter().map(|i| a.repos.repos[*i].path.clone()).collect();
    assert_eq!(paths, vec!["/srv/alpha".to_string()]);
}

#[test]
fn remote_accessors_return_what_was_given() {
    let r = Remote::new("origin".to_string(), "https://host/r.git".to_string());
    assert_eq!(r.name(), "origin");
    assert_eq!(r.url(), "https://host/r.git");
}

#[test]
fn filesystem_events_enter_the_model() {
    let mut m = Model::new();
    handle_filesystem_event(
        Event::LocalRepo(LocalRepo::new("/srv/x".to_string(), vec![])),
        &mut m,
    );
    handle_filesystem_event(
        Event::LocalRepo(LocalRepo::new("/srv/x".to_string(), vec![])),
        &mut m,
    );
    assert_eq!(m.len(), 1);
    assert_eq!(m.repos[0].path, "/srv/x");
    let _scan = Request::Scan("/srv".to_string());
}
