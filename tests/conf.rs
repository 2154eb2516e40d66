use sesh::cli::{InitArgs, WindowAddArgs, WindowRemoveArgs};
use sesh::conf::{init_config, Config, WindowConf};
use sesh::error::SeshError;
use sesh::words::{join_words, rand_phrase};

fn named(name: &str) -> WindowConf {
    WindowConf { name: Some(name.to_string()), command: None, default: None }
}

fn config(windows: Vec<WindowConf>) -> Config {
    Config { name: "test-session".to_string(), window: windows }
}

#[test]
fn test_window_add() {
    let mut config = config(vec![named("existing")]);
    let args = WindowAddArgs { name: Some("newwin".to_string()), cmd: "htop".to_string(), args: vec![] };
    config.add_window(&args);
    assert_eq!(config.window.len(), 2);
    assert_eq!(config.window[1].name, Some("newwin".to_string()));
    assert_eq!(config.window[1].command, Some(vec!["htop".to_string()]));
}

#[test]
fn test_window_add_with_args() {
    let mut config = config(vec![]);
    let args = WindowAddArgs {
        name: Some("server".to_string()),
        cmd: "npm".to_string(),
        args: vec!["run".to_string(), "dev".to_string()],
    };
    config.add_window(&args);
    assert_eq!(config.window.len(), 1);
    assert_eq!(
        config.window[0].command,
        Some(vec!["npm".to_string(), "run".to_string(), "dev".to_string()])
    );
}

#[test]
fn test_window_remove() {
    let mut config = config(vec![named("keep-me"), named("remove-me")]);
    let args = WindowRemoveArgs { name: Some("remove-me".to_string()) };
    config.remove_window(&args).unwrap();
    assert_eq!(config.window.len(), 1);
    assert_eq!(config.window[0].name, Some("keep-me".to_string()));
}

#[test]
fn test_window_remove_nonexistent() {
    let mut config = config(vec![named("only-window")]);
    let args = WindowRemoveArgs { name: Some("nonexistent".to_string()) };
    let result = config.remove_window(&args);
    assert!(result.is_err());
    assert!(result.unwrap_err().message().contains("not found"));
}

#[test]
fn test_window_remove_requires_name() {
    let mut config = config(vec![]);
    let args = WindowRemoveArgs { name: None };
    let result = config.remove_window(&args);
    assert!(result.is_err());
    assert!(result.unwrap_err().message().contains("Must specify"));
}

#[test]
fn remove_missing_name_leaves_declaration_unchanged() {
    let mut config = config(vec![named("a"), named("b")]);
    let before = config.clone();
    let result = config.remove_window(&WindowRemoveArgs { name: Some("x".to_string()) });
    match result {
        Err(SeshError::WindowNotFound(n)) => assert_eq!(n, "x"),
        _ => panic!("expected WindowNotFound"),
    }
    assert_eq!(config, before);
    assert_eq!(
        SeshError::WindowNotFound("x".to_string()).message(),
        "Window 'x' not found in config"
    );
}

#[test]
fn remove_without_name_fails_whatever_the_windows() {
    for windows in [vec![], vec![named("a")], vec![WindowConf { name: None, command: None, default: None }]] {
        let mut config = config(windows);
        let before = config.clone();
        assert!(matches!(
            config.remove_window(&WindowRemoveArgs { name: None }),
            Err(SeshError::NameRequired)
        ));
        assert_eq!(config, before);
    }
}

#[test]
fn remove_takes_only_the_first_match() {
    let mut config = config(vec![named("a"), named("b"), named("a")]);
    config.remove_window(&WindowRemoveArgs { name: Some("a".to_string()) }).unwrap();
    let names: Vec<Option<String>> = config.window.iter().map(|w| w.name.clone()).collect();
    assert_eq!(names, vec![Some("b".to_string()), Some("a".to_string())]);
}

#[test]
fn add_without_name_keeps_name_empty() {
    let mut config = config(vec![]);
    config.add_window(&WindowAddArgs { name: None, cmd: "top".to_string(), args: vec![] });
    assert_eq!(config.window[0], WindowConf { name: None, command: Some(vec!["top".to_string()]), default: None });
}

#[test]
fn init_refuses_existing_file_unless_overwriting() {
    let args = InitArgs { name: Some("proj".to_string()), overwrite: false };
    assert!(matches!(init_config(&args, true), Err(SeshError::ConfigExists)));
    let made = init_config(&args, false).unwrap();
    assert_eq!(made, Config { name: "proj".to_string(), window: vec![] });
    let args = InitArgs { name: Some("proj".to_string()), overwrite: true };
    assert_eq!(init_config(&args, true).unwrap().name, "proj");
}

fn split_phrase(s: &str, sep: char) -> Vec<String> {
    s.split(sep).map(|p| p.to_string()).collect()
}

#[test]
fn init_without_name_draws_a_phrase() {
    let args = InitArgs { name: None, overwrite: false };
    let made = init_config(&args, false).unwrap();
    assert_eq!(split_phrase(&made.name, '-').len(), 2);
    assert!(made.window.is_empty());
}

#[test]
fn rand_phrase_has_adjectives_then_noun() {
    let s = rand_phrase(Some(3), Some('_')).unwrap();
    let parts = split_phrase(&s, '_');
    assert_eq!(parts.len(), 4);
    assert!(parts.iter().all(|p| !p.is_empty()));
    let s = rand_phrase(Some(0), None).unwrap();
    assert_eq!(split_phrase(&s, '-').len(), 1);
    assert!(!s.is_empty());
    let s = rand_phrase(None, None).unwrap();
    assert_eq!(split_phrase(&s, '-').len(), 2);
}

#[test]
fn join_words_puts_separator_between() {
    let words = vec!["a".to_string(), "bc".to_string(), "d".to_string()];
    assert_eq!(join_words(&words, '+'), "a+bc+d");
    assert_eq!(join_words(&vec!["one".to_string()], '-'), "one");
    assert_eq!(join_words(&vec![], '-'), "");
}
