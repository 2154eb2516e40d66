//! Reconciliation: bringing the live session in line with its declaration.
//!
//! The decisions are plain functions of the declaration and of what the
//! backend reported (`plan_up`, `status_report`); the `run_*` functions query
//! the backend, take those decisions and carry them out.

use crate::conf::{texts_of, Config, ConfigView, WindowConf, WindowView};
use crate::error::SeshError;
use crate::tmux::{
    check_tmux_available, find_text, has_session, list_windows, new_session, new_window,
    send_keys, unchanged, window_appended, Call, SentKeys, TmuxBackend, TmuxModel,
};
use vstd::prelude::*;

verus! {

/// What `run_up` did about one declared window.
#[derive(Debug, Clone, Copy, PartialEq, Eq, Structural)]
pub enum WindowOutcome {
    /// A window of that name was already running; nothing was done.
    AlreadyExists,
    /// The window is the implicit first window of the session just created;
    /// its command, if it has one, was typed into window 0.
    FirstWindow { ran_command: bool },
    /// A window was created at the window's position; its command, if any, was typed into it.
    Created { ran_command: bool },
}

/// What `run_up` found and did.
#[derive(Debug, Clone)]
pub struct UpReport {
    /// Whether the session was running before.
    pub session_existed: bool,
    /// The window names of the session as found before any change; empty for a new session.
    pub existing: Vec<String>,
    /// One outcome per declared window, in declaration order.
    pub windows: Vec<WindowOutcome>,
}

/// Whether one declared window is running, under the name it is shown by.
#[derive(Debug, Clone)]
pub struct WindowStatus {
    pub name: String,
    pub running: bool,
}

/// What `run_status` reports.
#[derive(Debug, Clone)]
pub enum SessionStatus {
    NotRunning,
    /// The session is running; one line per declared window.
    Running(Vec<WindowStatus>),
}

/// What `run_down` found and did.
#[derive(Debug, Clone, Copy, PartialEq, Eq, Structural)]
pub enum DownOutcome {
    NotRunning,
    Killed,
}

/// What `run_restart` did: the result of taking the session down, then that of bringing it up.
#[derive(Debug)]
pub struct RestartReport {
    pub down: Result<DownOutcome, SeshError>,
    pub up: Result<UpReport, SeshError>,
}

/// A declared window counts as existing when it has a name that is already running.
pub open spec fn window_exists(w: WindowView, existing: Seq<Seq<char>>) -> bool {
    w.name matches Some(n) && existing.contains(n)
}

/// What `run_up` does about the declared window at position `i`.
pub open spec fn outcome_of(
    w: WindowView,
    i: int,
    existed: bool,
    existing: Seq<Seq<char>>,
) -> WindowOutcome {
    if window_exists(w, existing) {
        WindowOutcome::AlreadyExists
    } else if i == 0 && !existed {
        WindowOutcome::FirstWindow { ran_command: w.command is Some }
    } else {
        WindowOutcome::Created { ran_command: w.command is Some }
    }
}

/// What `run_up` does about each declared window, judged against one snapshot of the live windows.
pub open spec fn up_plan(
    ws: Seq<WindowView>,
    existed: bool,
    existing: Seq<Seq<char>>,
) -> Seq<WindowOutcome> {
    Seq::new(ws.len(), |i: int| outcome_of(ws[i], i, existed, existing))
}

/// The declared names of the windows that the first `n` outcomes create, in order.
pub open spec fn created_names(
    ws: Seq<WindowView>,
    plan: Seq<WindowOutcome>,
    n: nat,
) -> Seq<Option<Seq<char>>>
    decreases n,
{
    if n == 0 {
        Seq::empty()
    } else {
        let before = created_names(ws, plan, (n - 1) as nat);
        if plan[n - 1] is Created {
            before.push(ws[n - 1].name)
        } else {
            before
        }
    }
}

/// The keys that the first `n` outcomes send to `session`, in order.
pub open spec fn keys_for(
    session: Seq<char>,
    ws: Seq<WindowView>,
    plan: Seq<WindowOutcome>,
    n: nat,
) -> Seq<SentKeys>
    decreases n,
{
    if n == 0 {
        Seq::empty()
    } else {
        let before = keys_for(session, ws, plan, (n - 1) as nat);
        match ws[n - 1].command {
            Some(c) => if plan[n - 1] is AlreadyExists {
                before
            } else {
                before.push(SentKeys { session, window: (n - 1) as nat, command: c })
            },
            None => before,
        }
    }
}

/// `picked` are the names that windows got when created with the names `asked`:
/// a window asked for by name got that name.
pub open spec fn names_fit(picked: Seq<Seq<char>>, asked: Seq<Option<Seq<char>>>) -> bool {
    &&& picked.len() == asked.len()
    &&& forall|j: int| 0 <= j < asked.len() && #[trigger] asked[j] is Some ==> picked[j] == asked[j]->0
}

/// The calls `run_up` makes about the declared window `w` at position `i`.
pub open spec fn step_calls(session: Seq<char>, w: WindowView, i: nat, o: WindowOutcome) -> Seq<Call> {
    let keys = match w.command {
        Some(c) => seq![Call::SendKeys { session, window: i, command: c }],
        None => Seq::<Call>::empty(),
    };
    match o {
        WindowOutcome::AlreadyExists => Seq::empty(),
        WindowOutcome::FirstWindow { .. } => keys,
        WindowOutcome::Created { .. } => seq![
            Call::NewWindow { session, name: w.name, target: Some(i) },
        ] + keys,
    }
}

/// The calls `run_up` makes about the first `n` declared windows, in order.
pub open spec fn window_calls(
    session: Seq<char>,
    ws: Seq<WindowView>,
    plan: Seq<WindowOutcome>,
    n: nat,
) -> Seq<Call>
    decreases n,
{
    if n == 0 {
        Seq::empty()
    } else {
        window_calls(session, ws, plan, (n - 1) as nat) + step_calls(
            session,
            ws[n - 1],
            (n - 1) as nat,
            plan[n - 1],
        )
    }
}

/// The plan `run_up` of `d` makes when it starts from `before`.
pub open spec fn plan_from(d: ConfigView, before: TmuxModel) -> Seq<WindowOutcome> {
    let existed = before.sessions.contains_key(d.name);
    up_plan(
        d.windows,
        existed,
        if existed {
            before.sessions[d.name]
        } else {
            Seq::<Seq<char>>::empty()
        },
    )
}

/// Every call that `run_up` of `d` makes, in order, when it starts from
/// `before` and no call fails: a detached session if there was none, then
/// for each window to create a new window at its position, and the keys of
/// each window that was not already running.
pub open spec fn up_calls(d: ConfigView, before: TmuxModel) -> Seq<Call> {
    let existed = before.sessions.contains_key(d.name);
    (if existed {
        Seq::<Call>::empty()
    } else {
        seq![Call::NewSession { name: d.name, detached: true }]
    }) + window_calls(d.name, d.windows, plan_from(d, before), d.windows.len())
}

/// The calls made between `before` and `after` are the first ones of `planned`.
pub open spec fn issued_prefix(before: TmuxModel, after: TmuxModel, planned: Seq<Call>) -> bool {
    exists|k: int| 0 <= k <= planned.len() && after.calls == before.calls + #[trigger] planned.take(k)
}

/// An error that a call into the backend gave.
pub open spec fn backend_error(e: SeshError) -> bool {
    e is BackendUnavailable || e is BackendFailed
}

/// `after` and `rep` are what a successful `run_up` of `d` leaves when it starts from `before`.
pub open spec fn up_result(d: ConfigView, before: TmuxModel, after: TmuxModel, rep: UpReport) -> bool {
    let existed = before.sessions.contains_key(d.name);
    let existing = if existed {
        before.sessions[d.name]
    } else {
        Seq::<Seq<char>>::empty()
    };
    let plan = up_plan(d.windows, existed, existing);
    let created = created_names(d.windows, plan, d.windows.len());
    let kept = if existed {
        before.sessions[d.name].len()
    } else {
        1
    };
    let live = after.sessions[d.name];
    &&& rep.session_existed == existed
    &&& texts_of(rep.existing@) == existing
    &&& rep.windows@ == plan
    &&& after.sessions.contains_key(d.name)
    &&& after.sessions == before.sessions.insert(d.name, live)
    &&& live.len() == kept + created.len()
    &&& existed ==> live.subrange(0, kept as int) == before.sessions[d.name]
    &&& names_fit(live.subrange(kept as int, live.len() as int), created)
    &&& after.sent == before.sent + keys_for(d.name, d.windows, plan, d.windows.len())
    &&& after.calls == before.calls + up_calls(d, before)
}

/// `after` and `r` are what `run_up` of `d` leaves when it starts from `before`:
/// on success `up_result`; on failure a backend error, after which no further
/// call was made and nothing was undone. An unavailable multiplexer stops it
/// before any call.
pub open spec fn up_outcome(
    d: ConfigView,
    before: TmuxModel,
    after: TmuxModel,
    r: Result<UpReport, SeshError>,
) -> bool {
    match r {
        Ok(rep) => up_result(d, before, after, rep),
        Err(e) => {
            ||| e is BackendUnavailable && after == before
            ||| e is BackendFailed && issued_prefix(before, after, up_calls(d, before))
        },
    }
}

/// The name a declared window is shown by in a status report.
pub open spec fn status_name(w: WindowView) -> Seq<char> {
    match w.name {
        Some(n) => n,
        None => "unnamed"@,
    }
}

/// A declared window counts as running when its name is live, or when it is
/// shown as `unnamed` and its position is within the live window count.
pub open spec fn window_running(w: WindowView, i: int, live: Seq<Seq<char>>) -> bool {
    live.contains(status_name(w)) || (i < live.len() && status_name(w) == "unnamed"@)
}

/// `lines` holds one status line per declared window, in order.
pub open spec fn status_lines(
    lines: Seq<WindowStatus>,
    ws: Seq<WindowView>,
    live: Seq<Seq<char>>,
) -> bool {
    &&& lines.len() == ws.len()
    &&& forall|i: int|
        0 <= i < ws.len() ==> #[trigger] lines[i].name@ == status_name(ws[i]) && lines[i].running
            == window_running(ws[i], i, live)
}

/// `st` is what `run_status` of `d` reports on the state `m`.
pub open spec fn status_result(d: ConfigView, m: TmuxModel, st: SessionStatus) -> bool {
    match st {
        SessionStatus::NotRunning => !m.sessions.contains_key(d.name),
        SessionStatus::Running(lines) => {
            &&& m.sessions.contains_key(d.name)
            &&& status_lines(lines@, d.windows, m.sessions[d.name])
        },
    }
}

/// `after` and `o` are what a successful `run_down` of the session `name` leaves.
pub open spec fn down_result(name: Seq<char>, before: TmuxModel, after: TmuxModel, o: DownOutcome) -> bool {
    match o {
        DownOutcome::NotRunning => !before.sessions.contains_key(name) && after == before,
        DownOutcome::Killed => {
            &&& before.sessions.contains_key(name)
            &&& after.sessions == before.sessions.remove(name)
            &&& after.sent == before.sent
            &&& after.calls == before.calls.push(Call::KillSession { name })
        },
    }
}

/// `after` and `r` are what `run_down` of the session `name` leaves: on success
/// `down_result`; on failure a backend error, the sessions unchanged, and at
/// most the one kill of `name` made.
pub open spec fn down_outcome(
    name: Seq<char>,
    before: TmuxModel,
    after: TmuxModel,
    r: Result<DownOutcome, SeshError>,
) -> bool {
    match r {
        Ok(o) => down_result(name, before, after, o),
        Err(e) => {
            &&& backend_error(e)
            &&& after.sessions == before.sessions
            &&& after.sent == before.sent
            &&& (after.calls == before.calls || after.calls == before.calls.push(
                Call::KillSession { name },
            ))
            &&& e is BackendUnavailable ==> after == before
        },
    }
}

/// Whether `name` is among `ws`.
fn holds_text(ws: &Vec<String>, name: &String) -> (r: bool)
    ensures
        r == texts_of(ws@).contains(name@),
{
    match find_text(ws, name) {
        Some(p) => {
            proof {
                assert(texts_of(ws@)[p as int] == name@);
            }
            true
        },
        None => {
            proof {
                assert forall|j: int| 0 <= j < texts_of(ws@).len() implies texts_of(ws@)[j]
                    != name@ by {
                    assert(ws@[j]@ != name@);
                }
            }
            false
        },
    }
}

/// Decides, for each declared window in order, what `run_up` does about it,
/// given whether the session existed and its window names as found then.
pub fn plan_up(config: &Config, existed: bool, existing: &Vec<String>) -> (r: Vec<WindowOutcome>)
    ensures
        r@ == up_plan(config@.windows, existed, texts_of(existing@)),
{
    let mut r: Vec<WindowOutcome> = Vec::new();
    let mut i: usize = 0;
    while i < config.window.len()
        invariant
            i <= config.window@.len(),
            r@ == up_plan(config@.windows, existed, texts_of(existing@)).subrange(0, i as int),
        decreases config.window@.len() - i,
    {
        let w = &config.window[i];
        let exists = match &w.name {
            Some(n) => holds_text(existing, n),
            None => false,
        };
        let outcome = if exists {
            WindowOutcome::AlreadyExists
        } else if i == 0 && !existed {
            WindowOutcome::FirstWindow { ran_command: w.command.is_some() }
        } else {
            WindowOutcome::Created { ran_command: w.command.is_some() }
        };
        r.push(outcome);
        proof {
            assert(config@.windows[i as int] == w@);
            assert(r@ =~= up_plan(config@.windows, existed, texts_of(existing@)).subrange(
                0,
                i + 1,
            ));
        }
        i += 1;
    }
    r
}

/// One status line per declared window, judged against the live window names.
pub fn status_report(config: &Config, live: &Vec<String>) -> (r: Vec<WindowStatus>)
    ensures
        status_lines(r@, config@.windows, texts_of(live@)),
{
    let unnamed = String::from_str("unnamed");
    let mut r: Vec<WindowStatus> = Vec::new();
    let mut i: usize = 0;
    while i < config.window.len()
        invariant
            i <= config.window@.len(),
            unnamed@ == "unnamed"@,
            r@.len() == i,
            forall|j: int|
                0 <= j < i ==> #[trigger] r@[j].name@ == status_name(config@.windows[j])
                    && r@[j].running == window_running(config@.windows[j], j, texts_of(live@)),
        decreases config.window@.len() - i,
    {
        let w = &config.window[i];
        let name = match &w.name {
            Some(n) => n.clone(),
            None => unnamed.clone(),
        };
        let is_live = holds_text(live, &name);
        let is_unnamed = name == unnamed;
        let running = is_live || (i < live.len() && is_unnamed);
        proof {
            assert(config@.windows[i as int] == w@);
            assert(name@ == status_name(w@));
            assert(texts_of(live@).len() == live@.len());
        }
        r.push(WindowStatus { name, running });
        proof {
            assert(r@[i as int].running == window_running(config@.windows[i as int], i as int, texts_of(live@)));
        }
        i += 1;
    }
    r
}

/// Reports whether the declared session is running and, if it is, which of
/// its declared windows are.
pub fn run_status<B: TmuxBackend>(config: &Config, backend: &B) -> (r: Result<
    SessionStatus,
    SeshError,
>)
    ensures
        backend.reliable() ==> r is Ok,
        r matches Err(e) ==> backend_error(e),
        r matches Ok(st) ==> status_result(config@, backend.model(), st),
        r matches Ok(SessionStatus::Running(lines)) ==> (config@.windows.len() == 0 ==> lines@.len()
            == 0),
{
    match check_tmux_available(backend) {
        Ok(()) => {},
        Err(e) => return Err(e),
    }
    let name = config.name.as_str();
    let running = match has_session(backend, name) {
        Ok(b) => b,
        Err(e) => return Err(e),
    };
    if !running {
        return Ok(SessionStatus::NotRunning);
    }
    let live = match list_windows(backend, name) {
        Ok(ws) => ws,
        Err(e) => return Err(e),
    };
    Ok(SessionStatus::Running(status_report(config, &live)))
}

/// Kills the declared session if it is running.
pub fn run_down<B: TmuxBackend>(config: &Config, backend: &mut B) -> (r: Result<
    DownOutcome,
    SeshError,
>)
    ensures
        final(backend).reliable() == old(backend).reliable(),
        old(backend).reliable() ==> r is Ok,
        down_outcome(config@.name, old(backend).model(), final(backend).model(), r),
{
    match check_tmux_available(&*backend) {
        Ok(()) => {},
        Err(e) => return Err(e),
    }
    let name = config.name.as_str();
    let running = match has_session(&*backend, name) {
        Ok(b) => b,
        Err(e) => return Err(e),
    };
    if !running {
        return Ok(DownOutcome::NotRunning);
    }
    match crate::tmux::kill_session(backend, name) {
        Ok(()) => Ok(DownOutcome::Killed),
        Err(e) => Err(e),
    }
}

proof fn lemma_window_calls_grow(
    session: Seq<char>,
    ws: Seq<WindowView>,
    plan: Seq<WindowOutcome>,
    i: nat,
    j: nat,
)
    requires
        i <= j,
    ensures
        window_calls(session, ws, plan, i).len() <= window_calls(session, ws, plan, j).len(),
        window_calls(session, ws, plan, i) == window_calls(session, ws, plan, j).take(
            window_calls(session, ws, plan, i).len() as int,
        ),
    decreases j,
{
    if j > i {
        lemma_window_calls_grow(session, ws, plan, i, (j - 1) as nat);
        let a = window_calls(session, ws, plan, i);
        let b = window_calls(session, ws, plan, (j - 1) as nat);
        let c = window_calls(session, ws, plan, j);
        assert(c == b + step_calls(session, ws[j - 1], (j - 1) as nat, plan[j - 1]));
        assert(a =~= c.take(a.len() as int));
    } else {
        let a = window_calls(session, ws, plan, i);
        assert(a =~= a.take(a.len() as int));
    }
}

/// A `run_up` of `d` from `before` that stopped after the calls of the first `i`
/// windows and the first calls `extra` of window `i` made a prefix of its calls.
proof fn lemma_stopped_in_window(
    d: ConfigView,
    before: TmuxModel,
    after: TmuxModel,
    i: nat,
    extra: Seq<Call>,
)
    requires
        i < d.windows.len(),
        ({
            let plan = plan_from(d, before);
            let st = step_calls(d.name, d.windows[i as int], i, plan[i as int]);
            let pre = if before.sessions.contains_key(d.name) {
                Seq::<Call>::empty()
            } else {
                seq![Call::NewSession { name: d.name, detached: true }]
            };
            &&& extra.len() <= st.len()
            &&& extra == st.take(extra.len() as int)
            &&& after.calls == before.calls + pre + window_calls(d.name, d.windows, plan, i) + extra
        }),
    ensures
        issued_prefix(before, after, up_calls(d, before)),
{
    let plan = plan_from(d, before);
    let n = d.windows.len();
    let st = step_calls(d.name, d.windows[i as int], i, plan[i as int]);
    let pre = if before.sessions.contains_key(d.name) {
        Seq::<Call>::empty()
    } else {
        seq![Call::NewSession { name: d.name, detached: true }]
    };
    let wi = window_calls(d.name, d.windows, plan, i);
    let wn = window_calls(d.name, d.windows, plan, n);
    lemma_window_calls_grow(d.name, d.windows, plan, i + 1, n);
    let wi1 = window_calls(d.name, d.windows, plan, i + 1);
    assert(wi1 == wi + st);
    let m = wi.len() + extra.len();
    assert(wi + extra =~= wi1.take(m as int));
    assert(wi1.take(m as int) =~= wn.take(m as int));
    let planned = up_calls(d, before);
    assert(planned == pre + wn);
    let k = pre.len() + m;
    assert(planned.take(k as int) =~= pre + (wi + extra));
    assert(after.calls =~= before.calls + planned.take(k as int));
}

/// The keys `run_up` sends for the declared window `w` at position `i`.
pub open spec fn window_keys(session: Seq<char>, w: WindowView, i: nat, o: WindowOutcome) -> Seq<
    SentKeys,
> {
    match w.command {
        Some(c) => if o is AlreadyExists {
            Seq::empty()
        } else {
            seq![SentKeys { session, window: i, command: c }]
        },
        None => Seq::empty(),
    }
}

/// Carries out what `run_up` decided about the declared window `w` at position
/// `i` of `session`: nothing, its keys, or a new window and then its keys.
fn up_window<B: TmuxBackend>(
    backend: &mut B,
    session: &str,
    w: &WindowConf,
    i: usize,
    outcome: WindowOutcome,
) -> (r: Result<(), SeshError>)
    requires
        old(backend).model().sessions.contains_key(session@),
    ensures
        final(backend).reliable() == old(backend).reliable(),
        old(backend).reliable() ==> r is Ok,
        r is Ok ==> final(backend).model().calls == old(backend).model().calls + step_calls(
            session@,
            w@,
            i as nat,
            outcome,
        ),
        r matches Err(e) ==> e is BackendFailed && exists|k: int|
            0 <= k <= step_calls(session@, w@, i as nat, outcome).len() && final(backend).model().calls == old(backend).model().calls + #[trigger] step_calls(
                session@,
                w@,
                i as nat,
                outcome,
            ).take(k),
        r is Ok ==> final(backend).model().sent == old(backend).model().sent + window_keys(
            session@,
            w@,
            i as nat,
            outcome,
        ),
        r is Ok && !(outcome is Created) ==> final(backend).model().sessions == old(backend).model().sessions,
        r is Ok && outcome is Created ==> {
            let live = final(backend).model().sessions[session@];
            &&& final(backend).model().sessions.contains_key(session@)
            &&& final(backend).model().sessions == old(backend).model().sessions.insert(
                session@,
                old(backend).model().sessions[session@].push(live.last()),
            )
            &&& (w@.name matches Some(n) ==> live.last() == n)
        },
{
    let ghost m0 = backend.model();
    let ghost st = step_calls(session@, w@, i as nat, outcome);
    if matches!(outcome, WindowOutcome::AlreadyExists) {
        proof {
            assert(m0.calls =~= m0.calls + st);
            assert(m0.sent =~= m0.sent + window_keys(session@, w@, i as nat, outcome));
        }
        return Ok(());
    }
    if matches!(outcome, WindowOutcome::Created { .. }) {
        let window_name = match &w.name {
            Some(n) => Some(n.as_str()),
            None => None,
        };
        proof {
            assert(crate::tmux::opt_text(window_name) == w@.name);
        }
        match new_window(backend, session, window_name, Some(i)) {
            Ok(()) => {},
            Err(e) => {
                proof {
                    assert(st.take(1) =~= seq![
                        Call::NewWindow { session: session@, name: w@.name, target: Some(i as nat) },
                    ]);
                    assert(backend.model().calls =~= m0.calls + st.take(1));
                }
                return Err(e);
            },
        }
    }
    match &w.command {
        Some(cmd) => {
            match send_keys(backend, session, i, cmd.as_slice()) {
                Ok(()) => {},
                Err(e) => {
                    proof {
                        assert(backend.model().calls =~= m0.calls + st.take(st.len() as int));
                    }
                    return Err(e);
                },
            }
        },
        None => {},
    }
    proof {
        assert(backend.model().calls =~= m0.calls + st);
        assert(backend.model().sent =~= m0.sent + window_keys(session@, w@, i as nat, outcome));
    }
    Ok(())
}

/// Creates the declared session if it is not running, then each declared
/// window that is not running yet, and types each new window's command into it.
pub fn run_up<B: TmuxBackend>(config: &Config, backend: &mut B) -> (r: Result<UpReport, SeshError>)
    ensures
        final(backend).reliable() == old(backend).reliable(),
        old(backend).reliable() ==> r is Ok,
        up_outcome(config@, old(backend).model(), final(backend).model(), r),
{
    let ghost before = backend.model();
    let ghost rel = backend.reliable();
    match check_tmux_available(&*backend) {
        Ok(()) => {},
        Err(e) => return Err(e),
    }
    let name = config.name.as_str();
    let existed = match has_session(&*backend, name) {
        Ok(b) => b,
        Err(e) => {
            proof {
                assert(before.calls =~= before.calls + up_calls(config@, before).take(0));
            }
            return Err(e);
        },
    };
    let ghost pre = if existed {
        Seq::<Call>::empty()
    } else {
        seq![Call::NewSession { name: name@, detached: true }]
    };
    if !existed {
        match new_session(backend, name, true) {
            Ok(()) => {},
            Err(e) => {
                proof {
                    let planned = up_calls(config@, before);
                    assert(planned[0] == Call::NewSession { name: name@, detached: true });
                    assert(backend.model().calls =~= before.calls + planned.take(1));
                }
                return Err(e);
            },
        }
    }
    let existing = if existed {
        match list_windows(&*backend, name) {
            Ok(ws) => ws,
            Err(e) => {
                proof {
                    assert(before.calls =~= before.calls + up_calls(config@, before).take(0));
                }
                return Err(e);
            },
        }
    } else {
        Vec::new()
    };
    let plan = plan_up(config, existed, &existing);
    let ghost ws = config@.windows;
    let ghost start = backend.model();
    let ghost kept = start.sessions[name@].len();
    proof {
        assert(texts_of(existing@) =~= (if existed {
            before.sessions[name@]
        } else {
            Seq::<Seq<char>>::empty()
        }));
        let live = start.sessions[name@];
        assert(live.subrange(kept as int, live.len() as int) =~= Seq::<Seq<char>>::empty());
        assert(start.sent =~= start.sent + keys_for(name@, ws, plan@, 0));
        assert(start.calls =~= before.calls + pre + window_calls(name@, ws, plan@, 0));
    }
    let mut failure: Option<SeshError> = None;
    let mut i: usize = 0;
    while i < plan.len() && failure.is_none()
        invariant
            ws == config@.windows,
            name@ == config@.name,
            existed == before.sessions.contains_key(name@),
            pre == (if existed {
                Seq::<Call>::empty()
            } else {
                seq![Call::NewSession { name: name@, detached: true }]
            }),
            plan@ == up_plan(ws, existed, texts_of(existing@)),
            plan@ == plan_from(config@, before),
            plan@.len() == ws.len(),
            i <= plan@.len(),
            backend.reliable() == rel,
            start.sessions.contains_key(name@),
            kept == start.sessions[name@].len(),
            failure is None ==> {
                let live = backend.model().sessions[name@];
                &&& backend.model().sessions.contains_key(name@)
                &&& backend.model().sessions == start.sessions.insert(name@, live)
                &&& live.len() == kept + created_names(ws, plan@, i as nat).len()
                &&& live.subrange(0, kept as int) == start.sessions[name@]
                &&& names_fit(
                    live.subrange(kept as int, live.len() as int),
                    created_names(ws, plan@, i as nat),
                )
                &&& backend.model().sent == start.sent + keys_for(name@, ws, plan@, i as nat)
                &&& backend.model().calls == before.calls + pre + window_calls(
                    name@,
                    ws,
                    plan@,
                    i as nat,
                )
            },
            failure matches Some(e) ==> e is BackendFailed && !rel && issued_prefix(
                before,
                backend.model(),
                up_calls(config@, before),
            ),
        decreases plan@.len() - i + (if failure is None {
            1int
        } else {
            0int
        }),
    {
        let w = &config.window[i];
        proof {
            assert(ws[i as int] == w@);
        }
        let ghost m0 = backend.model();
        let ghost st = step_calls(name@, w@, i as nat, plan@[i as int]);
        let outcome = plan[i];
        match up_window(backend, name, w, i, outcome) {
            Ok(()) => {},
            Err(e) => {
                proof {
                    let k = choose|k: int|
                        0 <= k <= st.len() && backend.model().calls == m0.calls + #[trigger] st.take(
                            k,
                        );
                    let extra = st.take(k);
                    assert(extra =~= st.take(extra.len() as int));
                    assert(backend.model().calls =~= before.calls + pre + window_calls(
                        name@,
                        ws,
                        plan@,
                        i as nat,
                    ) + extra);
                    lemma_stopped_in_window(config@, before, backend.model(), i as nat, extra);
                }
                failure = Some(e);
            },
        }
        if failure.is_none() {
        proof {
            if outcome is Created {
                let before_w = m0.sessions[name@];
                let after_w = backend.model().sessions[name@];
                assert(after_w == before_w.push(after_w.last()));
                assert(after_w.subrange(0, kept as int) =~= before_w.subrange(0, kept as int));
                assert(after_w.subrange(kept as int, after_w.len() as int) =~= before_w.subrange(
                    kept as int,
                    before_w.len() as int,
                ).push(after_w.last()));
                assert(created_names(ws, plan@, (i + 1) as nat) == created_names(
                    ws,
                    plan@,
                    i as nat,
                ).push(w@.name));
                assert(backend.model().sessions =~= start.sessions.insert(name@, after_w));
            }
            assert(keys_for(name@, ws, plan@, (i + 1) as nat) =~= keys_for(
                name@,
                ws,
                plan@,
                i as nat,
            ) + window_keys(name@, w@, i as nat, outcome));
        }
        proof {
            assert(backend.model().calls =~= m0.calls + st);
            assert(window_calls(name@, ws, plan@, (i + 1) as nat) == window_calls(
                name@,
                ws,
                plan@,
                i as nat,
            ) + st);
            assert(backend.model().calls =~= before.calls + pre + window_calls(
                name@,
                ws,
                plan@,
                (i + 1) as nat,
            ));
            if outcome is Created {
            } else {
                assert(created_names(ws, plan@, (i + 1) as nat) == created_names(
                    ws,
                    plan@,
                    i as nat,
                ));
            }
        }
        i += 1;
        }
    }
    match failure {
        Some(e) => return Err(e),
        None => {},
    }
    proof {
        if !existed {
            assert(before.sessions.insert(name@, backend.model().sessions[name@]) =~= start.sessions.insert(
                name@,
                backend.model().sessions[name@],
            ));
        }
        assert(up_calls(config@, before) == pre + window_calls(name@, ws, plan@, ws.len()));
        let after = backend.model();
        let live = after.sessions[name@];
        assert(i == plan@.len());
        assert(after.sessions.contains_key(config@.name));
        assert(after.sessions == before.sessions.insert(config@.name, live));
        assert(live.len() == (if existed { before.sessions[name@].len() } else { 1 }) + created_names(ws, plan@, ws.len()).len());
        assert(after.sent == before.sent + keys_for(config@.name, ws, plan@, ws.len()));
        assert(after.calls == before.calls + up_calls(config@, before));
    }
    Ok(UpReport { session_existed: existed, existing, windows: plan })
}

/// `after` is `m` with the attach to `name` made last; on a reliable backend the
/// sessions are as they were.
pub open spec fn attached(m: TmuxModel, after: TmuxModel, name: Seq<char>, reliable: bool) -> bool {
    &&& after.calls == m.calls.push(Call::Attach { name })
    &&& reliable ==> unchanged(m, after)
}

/// Brings the declared session up as `run_up` does, then attaches the terminal
/// to it; a failed `run_up` stops it before the attach.
pub fn run_attach<B: TmuxBackend>(config: &Config, backend: &mut B) -> (r: Result<
    UpReport,
    SeshError,
>)
    ensures
        final(backend).reliable() == old(backend).reliable(),
        old(backend).reliable() ==> r is Ok,
        r matches Err(e) ==> backend_error(e),
        r matches Ok(rep) ==> exists|m: TmuxModel|
            up_result(config@, old(backend).model(), m, rep) && attached(
                m,
                final(backend).model(),
                config@.name,
                old(backend).reliable(),
            ),
        r matches Err(e) ==> {
            ||| up_outcome(config@, old(backend).model(), final(backend).model(), Err(e))
            ||| exists|m: TmuxModel, rep: UpReport|
                up_result(config@, old(backend).model(), m, rep) && attached(
                    m,
                    final(backend).model(),
                    config@.name,
                    old(backend).reliable(),
                )
        },
{
    let rep = match run_up(config, backend) {
        Ok(rep) => rep,
        Err(e) => return Err(e),
    };
    let ghost m = backend.model();
    proof {
        assert(up_result(config@, old(backend).model(), m, rep));
    }
    match crate::tmux::attach_session(backend, config.name.as_str()) {
        Ok(()) => Ok(rep),
        Err(e) => Err(e),
    }
}

/// Takes the declared session down, then brings it up whatever became of the
/// first step.
pub fn run_restart<B: TmuxBackend>(config: &Config, backend: &mut B) -> (r: RestartReport)
    ensures
        final(backend).reliable() == old(backend).reliable(),
        old(backend).reliable() ==> r.down is Ok && r.up is Ok,
        exists|m: TmuxModel|
            down_outcome(config@.name, old(backend).model(), m, r.down) && up_outcome(
                config@,
                m,
                final(backend).model(),
                r.up,
            ),
{
    let down = run_down(config, backend);
    let ghost m = backend.model();
    let up = run_up(config, backend);
    proof {
        assert(down_outcome(config@.name, old(backend).model(), m, down));
        assert(up_outcome(config@, m, backend.model(), up));
    }
    RestartReport { down, up }
}

} // verus!
