use gitmoto::gitconfig::remotes_from_config;

#[test]
fn remotes_are_read_from_their_sections() {
    let content = "[core]\n\trepositoryformatversion = 0\n[remote \"origin\"]\n\turl = ssh://host/repo.git\n\tfetch = +refs/heads/*:refs/remotes/origin/*\n[remote \"backup\"]\n\turl = https://mirror/repo.git\n";
    let remotes = remotes_from_config(content);
    assert_eq!(remotes.len(), 2);
    assert_eq!(remotes[0].name(), "origin");
    assert_eq!(remotes[0].url(), "ssh://host/repo.git");
    assert_eq!(remotes[1].name(), "backup");
    assert_eq!(remotes[1].url(), "https://mirror/repo.git");
}

#[test]
fn urls_outside_remote_sections_are_ignored() {
    let content = "url = nope\n[core]\n\turl = still-no\n[remote \"x\"]\n\tfetch = f\n";
    let remotes = remotes_from_config(content);
    assert!(remotes.is_empty());
}

#[test]
fn a_remote_with_two_urls_contributes_twice() {
    let content = "[remote \"o\"]\nurl = a\nurl = b\n";
    let remotes = remotes_from_config(content);
    assert_eq!(remotes.len(), 2);
    assert_eq!(remotes[0].name(), "o");
    assert_eq!(remotes[0].url(), "a");
    assert_eq!(remotes[1].url(), "b");
}

#[test]
fn empty_config_names_no_remotes() {
    assert!(remotes_from_config("").is_empty());
}
