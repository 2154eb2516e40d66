use sesh::tmux::{
    attach_session, has_session, kill_session, kill_window, list_windows, new_session, new_window,
    rename_window, send_keys, MockTmuxBackend, TmuxBackend,
};
use sesh::error::SeshError;

fn strings(v: &[&str]) -> Vec<String> {
    v.iter().map(|s| s.to_string()).collect()
}

#[test]
fn mock_new_session_has_one_window() {
    let mut b = MockTmuxBackend::new();
    assert_eq!(has_session(&b, "s").unwrap(), false);
    new_session(&mut b, "s", true).unwrap();
    assert_eq!(has_session(&b, "s").unwrap(), true);
    assert_eq!(list_windows(&b, "s").unwrap(), strings(&["bash"]));
    assert!(matches!(new_session(&mut b, "s", true), Err(SeshError::BackendFailed(_))));
}

#[test]
fn mock_windows_are_appended_renamed_and_killed() {
    let mut b = MockTmuxBackend::new().with_session("s", vec!["a", "b", "a"]);
    new_window(&mut b, "s", Some("c"), Some(3)).unwrap();
    new_window(&mut b, "s", None, None).unwrap();
    assert_eq!(list_windows(&b, "s").unwrap(), strings(&["a", "b", "a", "c", "unnamed"]));
    kill_window(&mut b, "s", "a").unwrap();
    assert_eq!(list_windows(&b, "s").unwrap(), strings(&["b", "a", "c", "unnamed"]));
    rename_window(&mut b, "s", 3, "d").unwrap();
    assert_eq!(list_windows(&b, "s").unwrap(), strings(&["b", "a", "c", "d"]));
    assert!(rename_window(&mut b, "s", 4, "e").is_err());
    assert!(kill_window(&mut b, "s", "zz").is_err());
    assert!(new_window(&mut b, "nope", None, None).is_err());
}

#[test]
fn mock_keys_and_attach_need_a_session() {
    let mut b = MockTmuxBackend::new();
    assert!(send_keys(&mut b, "s", 0, &strings(&["ls"])).is_err());
    assert!(attach_session(&mut b, "s").is_err());
    b = b.with_session("s", vec!["w"]);
    send_keys(&mut b, "s", 0, &strings(&["ls", "-l"])).unwrap();
    attach_session(&mut b, "s").unwrap();
    assert_eq!(b.get_commands_sent(), vec![("s".to_string(), 0, strings(&["ls", "-l"]))]);
}

#[test]
fn mock_kill_session_and_replace_with_session() {
    let mut b = MockTmuxBackend::new().with_session("a", vec!["1"]).with_session("b", vec![]);
    b = b.with_session("a", vec!["2", "3"]);
    assert_eq!(b.get_sessions(), vec![("a".to_string(), strings(&["2", "3"])), ("b".to_string(), vec![])]);
    kill_session(&mut b, "a").unwrap();
    assert!(kill_session(&mut b, "a").is_err());
    assert_eq!(b.get_sessions(), vec![("b".to_string(), vec![])]);
    assert!(b.list_windows("a").is_err());
}
