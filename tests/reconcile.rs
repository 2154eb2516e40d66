use sesh::conf::{Config, WindowConf};
use sesh::error::SeshError;
use sesh::reconcile::{
    plan_up, run_attach, run_down, run_restart, run_status, run_up, status_report, DownOutcome,
    SessionStatus, WindowOutcome,
};
use sesh::tmux::{MockTmuxBackend, TmuxBackend};

fn window(name: Option<&str>, command: Option<&[&str]>) -> WindowConf {
    WindowConf {
        name: name.map(|n| n.to_string()),
        command: command.map(|c| c.iter().map(|s| s.to_string()).collect()),
        default: None,
    }
}

fn decl(name: &str, windows: Vec<WindowConf>) -> Config {
    Config { name: name.to_string(), window: windows }
}

fn windows_of(backend: &MockTmuxBackend, session: &str) -> Option<Vec<String>> {
    backend
        .get_sessions()
        .into_iter()
        .find(|(n, _)| n == session)
        .map(|(_, ws)| ws)
}

fn strings(v: &[&str]) -> Vec<String> {
    v.iter().map(|s| s.to_string()).collect()
}

#[test]
fn test_status_session_not_running() {
    let config = decl("test-session", vec![window(Some("editor"), Some(&["vim", "."]))]);
    let backend = MockTmuxBackend::new();
    let result = run_status(&config, &backend);
    assert!(result.is_ok());
    assert!(matches!(result, Ok(SessionStatus::NotRunning)));
}

#[test]
fn test_status_session_running() {
    let config = decl("test-session", vec![window(Some("editor"), Some(&["vim", "."]))]);
    let backend = MockTmuxBackend::new().with_session("test-session", vec!["editor"]);
    let result = run_status(&config, &backend);
    assert!(result.is_ok());
    match result {
        Ok(SessionStatus::Running(lines)) => {
            assert_eq!(lines.len(), 1);
            assert_eq!(lines[0].name, "editor");
            assert!(lines[0].running);
        }
        _ => panic!("expected a running session"),
    }
}

#[test]
fn test_up_creates_new_session() {
    let config = decl("new-session", vec![window(Some("terminal"), Some(&["bash"]))]);
    let mut backend = MockTmuxBackend::new();
    run_up(&config, &mut backend).unwrap();
    assert!(windows_of(&backend, "new-session").is_some());
}

#[test]
fn test_up_with_multiple_windows() {
    let config = decl(
        "multi-window",
        vec![
            window(Some("editor"), Some(&["vim"])),
            window(Some("server"), Some(&["npm", "run", "dev"])),
        ],
    );
    let mut backend = MockTmuxBackend::new();
    run_up(&config, &mut backend).unwrap();
    let windows = windows_of(&backend, "multi-window");
    assert!(windows.is_some());
    assert!(windows.unwrap().contains(&"server".to_string()));
    let commands = backend.get_commands_sent();
    assert!(!commands.is_empty());
}

#[test]
fn test_up_idempotent() {
    let config = decl("existing-session", vec![window(Some("terminal"), None)]);
    let mut backend = MockTmuxBackend::new().with_session("existing-session", vec!["terminal"]);
    let result = run_up(&config, &mut backend);
    assert!(result.is_ok());
}

#[test]
fn test_down_kills_session() {
    let config = decl("kill-me", vec![]);
    let mut backend = MockTmuxBackend::new().with_session("kill-me", vec![]);
    run_down(&config, &mut backend).unwrap();
    assert!(windows_of(&backend, "kill-me").is_none());
}

#[test]
fn test_down_nonexistent_session() {
    let config = decl("nonexistent", vec![]);
    let mut backend = MockTmuxBackend::new();
    let result = run_down(&config, &mut backend);
    assert!(result.is_ok());
    assert_eq!(result.unwrap(), DownOutcome::NotRunning);
}

#[test]
fn up_from_nothing_reports_each_window() {
    let config = decl(
        "multi-window",
        vec![
            window(Some("editor"), Some(&["vim"])),
            window(Some("server"), Some(&["npm", "run", "dev"])),
        ],
    );
    let mut backend = MockTmuxBackend::new();
    let report = run_up(&config, &mut backend).unwrap();
    assert!(!report.session_existed);
    assert!(report.existing.is_empty());
    assert_eq!(
        report.windows,
        vec![
            WindowOutcome::FirstWindow { ran_command: true },
            WindowOutcome::Created { ran_command: true },
        ]
    );
    assert_eq!(windows_of(&backend, "multi-window").unwrap(), strings(&["bash", "server"]));
    assert_eq!(
        backend.get_commands_sent(),
        vec![
            ("multi-window".to_string(), 0, strings(&["vim"])),
            ("multi-window".to_string(), 1, strings(&["npm", "run", "dev"])),
        ]
    );
}

#[test]
fn up_twice_changes_nothing_when_all_windows_are_running() {
    let config = decl(
        "work",
        vec![window(Some("bash"), Some(&["ls"])), window(Some("logs"), Some(&["tail", "-f", "x"]))],
    );
    let mut backend = MockTmuxBackend::new();
    run_up(&config, &mut backend).unwrap();
    let sessions = backend.get_sessions();
    let sent = backend.get_commands_sent();
    let second = run_up(&config, &mut backend).unwrap();
    assert!(second.session_existed);
    assert_eq!(second.windows, vec![WindowOutcome::AlreadyExists, WindowOutcome::AlreadyExists]);
    assert_eq!(backend.get_sessions(), sessions);
    assert_eq!(backend.get_commands_sent(), sent);
}

#[test]
fn up_twice_recreates_first_window_whose_name_was_never_given() {
    let config = decl("work", vec![window(Some("editor"), Some(&["vim"])), window(Some("logs"), None)]);
    let mut backend = MockTmuxBackend::new();
    run_up(&config, &mut backend).unwrap();
    let second = run_up(&config, &mut backend).unwrap();
    assert_eq!(
        second.windows,
        vec![WindowOutcome::Created { ran_command: true }, WindowOutcome::AlreadyExists]
    );
    assert_eq!(windows_of(&backend, "work").unwrap(), strings(&["bash", "logs", "editor"]));
}

#[test]
fn up_adds_missing_windows_to_running_session() {
    let config = decl(
        "dev",
        vec![window(Some("editor"), None), window(None, Some(&["htop"])), window(Some("db"), None)],
    );
    let mut backend = MockTmuxBackend::new().with_session("dev", vec!["editor"]);
    let report = run_up(&config, &mut backend).unwrap();
    assert!(report.session_existed);
    assert_eq!(report.existing, strings(&["editor"]));
    assert_eq!(
        report.windows,
        vec![
            WindowOutcome::AlreadyExists,
            WindowOutcome::Created { ran_command: true },
            WindowOutcome::Created { ran_command: false },
        ]
    );
    assert_eq!(windows_of(&backend, "dev").unwrap(), strings(&["editor", "unnamed", "db"]));
    assert_eq!(backend.get_commands_sent(), vec![("dev".to_string(), 1, strings(&["htop"]))]);
}

#[test]
fn up_judges_repeated_names_against_one_snapshot() {
    let config = decl("dup", vec![window(Some("a"), None), window(Some("a"), None)]);
    let mut backend = MockTmuxBackend::new().with_session("dup", vec!["other"]);
    let report = run_up(&config, &mut backend).unwrap();
    assert_eq!(
        report.windows,
        vec![WindowOutcome::Created { ran_command: false }, WindowOutcome::Created { ran_command: false }]
    );
    let mut backend = MockTmuxBackend::new().with_session("dup", vec!["a"]);
    let report = run_up(&config, &mut backend).unwrap();
    assert_eq!(report.windows, vec![WindowOutcome::AlreadyExists, WindowOutcome::AlreadyExists]);
    assert_eq!(windows_of(&backend, "dup").unwrap(), strings(&["a"]));
}

#[test]
fn up_leaves_other_sessions_alone() {
    let config = decl("mine", vec![window(Some("w"), None)]);
    let mut backend = MockTmuxBackend::new().with_session("theirs", vec!["x", "y"]);
    run_up(&config, &mut backend).unwrap();
    assert_eq!(windows_of(&backend, "theirs").unwrap(), strings(&["x", "y"]));
    assert_eq!(windows_of(&backend, "mine").unwrap(), strings(&["bash"]));
}

#[test]
fn down_then_status_reports_not_running() {
    let config = decl("gone", vec![window(Some("a"), None)]);
    let mut backend = MockTmuxBackend::new().with_session("gone", vec!["a"]);
    assert_eq!(run_down(&config, &mut backend).unwrap(), DownOutcome::Killed);
    assert!(matches!(run_status(&config, &backend), Ok(SessionStatus::NotRunning)));
}

#[test]
fn status_with_no_windows_has_no_lines() {
    let config = decl("empty", vec![]);
    let backend = MockTmuxBackend::new().with_session("empty", vec!["bash"]);
    match run_status(&config, &backend) {
        Ok(SessionStatus::Running(lines)) => assert!(lines.is_empty()),
        _ => panic!("expected a running session"),
    }
}

#[test]
fn status_marks_unnamed_windows_by_position() {
    let config = decl(
        "s",
        vec![window(None, None), window(Some("b"), None), window(None, None), window(Some("z"), None)],
    );
    let live = strings(&["x", "b"]);
    let lines = status_report(&config, &live);
    let got: Vec<(String, bool)> = lines.into_iter().map(|l| (l.name, l.running)).collect();
    assert_eq!(
        got,
        vec![
            ("unnamed".to_string(), true),
            ("b".to_string(), true),
            ("unnamed".to_string(), false),
            ("z".to_string(), false),
        ]
    );
}

#[test]
fn plan_up_for_new_and_existing_sessions() {
    let config = decl("p", vec![window(Some("a"), Some(&["x"])), window(None, None), window(Some("c"), None)]);
    assert_eq!(
        plan_up(&config, false, &vec![]),
        vec![
            WindowOutcome::FirstWindow { ran_command: true },
            WindowOutcome::Created { ran_command: false },
            WindowOutcome::Created { ran_command: false },
        ]
    );
    assert_eq!(
        plan_up(&config, true, &strings(&["c", "a"])),
        vec![
            WindowOutcome::AlreadyExists,
            WindowOutcome::Created { ran_command: false },
            WindowOutcome::AlreadyExists,
        ]
    );
}

#[test]
fn attach_brings_session_up_first() {
    let config = decl("att", vec![window(Some("main"), Some(&["top"]))]);
    let mut backend = MockTmuxBackend::new();
    let report = run_attach(&config, &mut backend).unwrap();
    assert_eq!(report.windows, vec![WindowOutcome::FirstWindow { ran_command: true }]);
    assert_eq!(windows_of(&backend, "att").unwrap(), strings(&["bash"]));
}

#[test]
fn restart_recreates_the_session() {
    let config = decl("re", vec![window(Some("bash"), None), window(Some("two"), None)]);
    let mut backend = MockTmuxBackend::new().with_session("re", vec!["bash", "old"]);
    let report = run_restart(&config, &mut backend);
    assert_eq!(report.down.unwrap(), DownOutcome::Killed);
    let up = report.up.unwrap();
    assert!(!up.session_existed);
    assert_eq!(windows_of(&backend, "re").unwrap(), strings(&["bash", "two"]));
}

#[test]
fn restart_of_stopped_session_still_brings_it_up() {
    let config = decl("re", vec![]);
    let mut backend = MockTmuxBackend::new();
    let report = run_restart(&config, &mut backend);
    assert_eq!(report.down.unwrap(), DownOutcome::NotRunning);
    assert!(report.up.is_ok());
    assert_eq!(windows_of(&backend, "re").unwrap(), strings(&["bash"]));
}

struct Unavailable;

impl TmuxBackend for Unavailable {
    fn check_available(&self) -> Result<(), sesh::error::BackendError> {
        Err(sesh::error::BackendError { message: "no tmux".to_string() })
    }
    fn has_session(&self, _: &str) -> Result<bool, sesh::error::BackendError> {
        Ok(false)
    }
    fn list_windows(&self, _: &str) -> Result<Vec<String>, sesh::error::BackendError> {
        Ok(vec![])
    }
    fn new_session(&mut self, _: &str, _: bool) -> Result<(), sesh::error::BackendError> {
        Ok(())
    }
    fn new_window(&mut self, _: &str, _: Option<&str>, _: Option<usize>) -> Result<(), sesh::error::BackendError> {
        Ok(())
    }
    fn send_keys(&mut self, _: &str, _: usize, _: &[String]) -> Result<(), sesh::error::BackendError> {
        Ok(())
    }
    fn kill_session(&mut self, _: &str) -> Result<(), sesh::error::BackendError> {
        Ok(())
    }
    fn kill_window(&mut self, _: &str, _: &str) -> Result<(), sesh::error::BackendError> {
        Ok(())
    }
    fn rename_window(&mut self, _: &str, _: usize, _: &str) -> Result<(), sesh::error::BackendError> {
        Ok(())
    }
    fn attach_session(&mut self, _: &str) -> Result<(), sesh::error::BackendError> {
        Ok(())
    }
}

#[test]
fn unavailable_backend_stops_every_run() {
    let config = decl("x", vec![]);
    let mut backend = Unavailable;
    assert!(matches!(run_up(&config, &mut backend), Err(SeshError::BackendUnavailable(_))));
    assert!(matches!(run_down(&config, &mut backend), Err(SeshError::BackendUnavailable(_))));
    assert!(matches!(run_status(&config, &backend), Err(SeshError::BackendUnavailable(_))));
    match run_status(&config, &backend) {
        Err(e) => assert_eq!(e.message(), "no tmux"),
        Ok(_) => panic!("expected an error"),
    }
}

struct NoNewWindows {
    inner: MockTmuxBackend,
}

impl TmuxBackend for NoNewWindows {
    fn check_available(&self) -> Result<(), sesh::error::BackendError> {
        self.inner.check_available()
    }
    fn has_session(&self, n: &str) -> Result<bool, sesh::error::BackendError> {
        self.inner.has_session(n)
    }
    fn list_windows(&self, s: &str) -> Result<Vec<String>, sesh::error::BackendError> {
        self.inner.list_windows(s)
    }
    fn new_session(&mut self, n: &str, d: bool) -> Result<(), sesh::error::BackendError> {
        self.inner.new_session(n, d)
    }
    fn new_window(&mut self, _: &str, _: Option<&str>, _: Option<usize>) -> Result<(), sesh::error::BackendError> {
        Err(sesh::error::BackendError { message: "no room".to_string() })
    }
    fn send_keys(&mut self, s: &str, i: usize, c: &[String]) -> Result<(), sesh::error::BackendError> {
        self.inner.send_keys(s, i, c)
    }
    fn kill_session(&mut self, n: &str) -> Result<(), sesh::error::BackendError> {
        self.inner.kill_session(n)
    }
    fn kill_window(&mut self, s: &str, w: &str) -> Result<(), sesh::error::BackendError> {
        self.inner.kill_window(s, w)
    }
    fn rename_window(&mut self, s: &str, i: usize, n: &str) -> Result<(), sesh::error::BackendError> {
        self.inner.rename_window(s, i, n)
    }
    fn attach_session(&mut self, n: &str) -> Result<(), sesh::error::BackendError> {
        self.inner.attach_session(n)
    }
}

#[test]
fn failed_window_stops_up_without_undoing() {
    let config = decl(
        "half",
        vec![
            window(Some("a"), Some(&["one"])),
            window(Some("b"), Some(&["two"])),
            window(Some("c"), Some(&["three"])),
        ],
    );
    let mut backend = NoNewWindows { inner: MockTmuxBackend::new() };
    match run_up(&config, &mut backend) {
        Err(SeshError::BackendFailed(e)) => assert_eq!(e.message, "no room"),
        _ => panic!("expected a backend failure"),
    }
    assert_eq!(windows_of(&backend.inner, "half").unwrap(), strings(&["bash"]));
    assert_eq!(backend.inner.get_commands_sent(), vec![("half".to_string(), 0, strings(&["one"]))]);
    let mut backend = NoNewWindows { inner: MockTmuxBackend::new() };
    assert!(matches!(run_attach(&config, &mut backend), Err(SeshError::BackendFailed(_))));
}
