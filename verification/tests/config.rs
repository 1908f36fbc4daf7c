use gitmoto::config::{valid_config, Config, Error, FilesystemScannerConfig, GitClientConfig};
use gitmoto::template;

fn config_with(roots: Vec<&str>, args: Vec<&str>) -> Config {
    let mut c = Config::default();
    c.filesystem.scanner = FilesystemScannerConfig {
        roots: roots.into_iter().map(|s| s.to_string()).collect(),
        excludes: vec![],
    };
    c.git_client = GitClientConfig {
        command: "emacsclient".to_string(),
        args: args.into_iter().map(|s| s.to_string()).collect(),
    };
    c
}

#[test]
fn config_without_roots_is_rejected() {
    let c = config_with(vec![], vec![]);
    assert!(matches!(valid_config(c), Err(Error::EmptyFilesystemScannerRoots)));
}

#[test]
fn config_with_roots_and_clean_templates_passes() {
    let c = config_with(vec!["~/src"], vec!["--eval", "(magit-status \"%f\")"]);
    let checked = valid_config(c).map_err(|_| ()).expect("config should pass");
    assert_eq!(checked.filesystem.scanner.roots, vec!["~/src".to_string()]);
}

#[test]
fn config_with_bad_template_is_rejected() {
    let c = config_with(vec!["~/src"], vec!["%q"]);
    match valid_config(c) {
        Err(Error::GitClientTemplate(e)) => {
            assert_eq!(e, template::Error::UnknownFormatCharacter('q'));
        }
        _ => panic!("expected a template error"),
    }
}

#[test]
fn format_args_substitutes_the_path() {
    let gc = GitClientConfig {
        command: "emacsclient".to_string(),
        args: vec!["--create-frame".to_string(), "(magit-status \"%f\")".to_string()],
    };
    let args = gc.format_args("/home/u/repo").map_err(|_| ()).expect("templates format");
    assert_eq!(
        args,
        vec!["--create-frame".to_string(), "(magit-status \"/home/u/repo\")".to_string()],
    );
}

#[test]
fn format_args_reports_the_first_bad_template() {
    let gc = GitClientConfig {
        command: "x".to_string(),
        args: vec!["fine".to_string(), "%".to_string()],
    };
    match gc.format_args("p") {
        Err(Error::GitClientTemplate(e)) => assert_eq!(e, template::Error::TrailingPercent),
        _ => panic!("expected a template error"),
    }
}

#[test]
fn defaults_collapse_paths_and_hold_no_roots() {
    let c = Config::default();
    assert!(c.view.collapse_paths);
    assert!(c.filesystem.scanner.roots.is_empty());
    assert!(gitmoto::config::default_collapse_paths());
}

#[test]
fn missing_roots_error_renders() {
    assert_eq!(
        Error::EmptyFilesystemScannerRoots.message().as_str(),
        "missing filesystem scanner roots",
    );
}
