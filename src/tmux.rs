//! The multiplexer as the reconciler sees it: a backend trait over a model of
//! live sessions, functions that call it, and an in-memory backend.

use crate::conf::{copy_texts, texts_of};
use crate::error::quoted_error;
use crate::error::{BackendError, SeshError};
use vstd::prelude::*;

verus! {

/// One line of keys typed into a window: the session, the window's index and the command.
pub struct SentKeys {
    pub session: Seq<char>,
    pub window: nat,
    pub command: Seq<Seq<char>>,
}

/// A call that may change the multiplexer, with its arguments.
pub enum Call {
    NewSession { name: Seq<char>, detached: bool },
    NewWindow { session: Seq<char>, name: Option<Seq<char>>, target: Option<nat> },
    SendKeys { session: Seq<char>, window: nat, command: Seq<Seq<char>> },
    KillSession { name: Seq<char> },
    KillWindow { session: Seq<char>, window: Seq<char> },
    RenameWindow { session: Seq<char>, window: nat, name: Seq<char> },
    Attach { name: Seq<char> },
}

/// The live state of a multiplexer: each session's window names in order,
/// every line of keys sent successfully, and every call made that may change it.
pub struct TmuxModel {
    pub sessions: Map<Seq<char>, Seq<Seq<char>>>,
    pub sent: Seq<SentKeys>,
    pub calls: Seq<Call>,
}

pub open spec fn opt_text(s: Option<&str>) -> Option<Seq<char>> {
    match s {
        Some(t) => Some(t@),
        None => None,
    }
}

/// `after` holds a new session `name` with a single window, and is `before` otherwise.
pub open spec fn session_created(before: TmuxModel, after: TmuxModel, name: Seq<char>) -> bool {
    &&& !before.sessions.contains_key(name)
    &&& after.sessions.contains_key(name)
    &&& after.sessions[name].len() == 1
    &&& after.sessions == before.sessions.insert(name, after.sessions[name])
    &&& after.sent == before.sent
}

/// `after` is `before` with one window appended to `session`, named `name` when a name is given.
pub open spec fn window_appended(
    before: TmuxModel,
    after: TmuxModel,
    session: Seq<char>,
    name: Option<Seq<char>>,
) -> bool {
    &&& before.sessions.contains_key(session)
    &&& after.sessions.contains_key(session)
    &&& after.sessions == before.sessions.insert(
        session,
        before.sessions[session].push(after.sessions[session].last()),
    )
    &&& (name matches Some(n) ==> after.sessions[session].last() == n)
    &&& after.sent == before.sent
}

/// `after` is `before` with one more line of keys sent to an existing session.
pub open spec fn keys_sent(
    before: TmuxModel,
    after: TmuxModel,
    session: Seq<char>,
    window: nat,
    command: Seq<Seq<char>>,
) -> bool {
    &&& before.sessions.contains_key(session)
    &&& after.sessions == before.sessions
    &&& after.sent == before.sent.push(SentKeys { session, window, command })
}

/// `after` is `before` without the session `name`, which existed.
pub open spec fn session_killed(before: TmuxModel, after: TmuxModel, name: Seq<char>) -> bool {
    &&& before.sessions.contains_key(name)
    &&& after.sessions == before.sessions.remove(name)
    &&& after.sent == before.sent
}

/// `after` is `before` without the first window called `window` in `session`.
pub open spec fn window_killed(
    before: TmuxModel,
    after: TmuxModel,
    session: Seq<char>,
    window: Seq<char>,
) -> bool {
    &&& before.sessions.contains_key(session)
    &&& before.sessions[session].contains(window)
    &&& after.sessions == before.sessions.insert(
        session,
        before.sessions[session].remove_value(window),
    )
    &&& after.sent == before.sent
}

/// `after` is `before` with the window at `index` of `session` renamed to `name`.
pub open spec fn window_renamed(
    before: TmuxModel,
    after: TmuxModel,
    session: Seq<char>,
    index: nat,
    name: Seq<char>,
) -> bool {
    &&& before.sessions.contains_key(session)
    &&& index < before.sessions[session].len()
    &&& after.sessions == before.sessions.insert(
        session,
        before.sessions[session].update(index as int, name),
    )
    &&& after.sent == before.sent
}

/// `after` holds the same sessions and sent keys as `before`.
pub open spec fn unchanged(before: TmuxModel, after: TmuxModel) -> bool {
    after.sessions == before.sessions && after.sent == before.sent
}

pub open spec fn opt_index(i: Option<usize>) -> Option<nat> {
    match i {
        Some(n) => Some(n as nat),
        None => None,
    }
}

/// The operations the reconciler needs from a terminal multiplexer.
///
/// Every call that may change the multiplexer is logged in the model, whatever
/// its outcome. A successful call did to the sessions what its contract says;
/// a failed one changed nothing. A reliable backend (the in-memory one) fails
/// exactly where its contract says; another may fail on any call.
pub trait TmuxBackend {
    /// The live state as this backend models it. For a backend whose code is
    /// not verified, the contracts of this trait are assumed, unchecked.
    open spec fn model(&self) -> TmuxModel {
        vstd::pervasive::arbitrary()
    }

    /// Whether each call fails only where its contract says it does.
    open spec fn reliable(&self) -> bool {
        false
    }

    /// Checks that the multiplexer program can be run at all.
    fn check_available(&self) -> (r: Result<(), BackendError>)
        ensures
            self.reliable() ==> r is Ok,
    ;

    /// Whether a session with this name exists.
    fn has_session(&self, name: &str) -> (r: Result<bool, BackendError>)
        ensures
            self.reliable() ==> r is Ok,
            r matches Ok(b) ==> b == self.model().sessions.contains_key(name@),
    ;

    /// The window names of a session, in window order; fails if there is no such session.
    fn list_windows(&self, session: &str) -> (r: Result<Vec<String>, BackendError>)
        ensures
            self.reliable() ==> (r is Ok <==> self.model().sessions.contains_key(session@)),
            r matches Ok(ws) ==> {
                &&& self.model().sessions.contains_key(session@)
                &&& texts_of(ws@) == self.model().sessions[session@]
            },
    ;

    /// Creates a session with one implicit first window; fails if the session exists.
    fn new_session(&mut self, name: &str, detached: bool) -> (r: Result<(), BackendError>)
        ensures
            final(self).reliable() == old(self).reliable(),
            final(self).model().calls == old(self).model().calls.push(
                Call::NewSession { name: name@, detached },
            ),
            old(self).reliable() ==> (r is Ok <==> !old(self).model().sessions.contains_key(name@)),
            r is Ok ==> session_created(old(self).model(), final(self).model(), name@),
            r is Err ==> unchanged(old(self).model(), final(self).model()),
    ;

    /// Appends a window to a session; fails if there is no such session.
    fn new_window(
        &mut self,
        session: &str,
        window_name: Option<&str>,
        target_index: Option<usize>,
    ) -> (r: Result<(), BackendError>)
        ensures
            final(self).reliable() == old(self).reliable(),
            final(self).model().calls == old(self).model().calls.push(
                Call::NewWindow {
                    session: session@,
                    name: opt_text(window_name),
                    target: opt_index(target_index),
                },
            ),
            old(self).reliable() ==> (r is Ok <==> old(self).model().sessions.contains_key(session@)),
            r is Ok ==> window_appended(
                old(self).model(),
                final(self).model(),
                session@,
                opt_text(window_name),
            ),
            r is Err ==> unchanged(old(self).model(), final(self).model()),
    ;

    /// Types `command`, joined by single spaces, into a window, followed by
    /// Enter; fails if there is no such session.
    fn send_keys(&mut self, session: &str, window_index: usize, command: &[String]) -> (r: Result<
        (),
        BackendError,
    >)
        ensures
            final(self).reliable() == old(self).reliable(),
            final(self).model().calls == old(self).model().calls.push(
                Call::SendKeys {
                    session: session@,
                    window: window_index as nat,
                    command: texts_of(command@),
                },
            ),
            old(self).reliable() ==> (r is Ok <==> old(self).model().sessions.contains_key(session@)),
            r is Ok ==> keys_sent(
                old(self).model(),
                final(self).model(),
                session@,
                window_index as nat,
                texts_of(command@),
            ),
            r is Err ==> unchanged(old(self).model(), final(self).model()),
    ;

    /// Destroys a session; fails if there is no such session.
    fn kill_session(&mut self, name: &str) -> (r: Result<(), BackendError>)
        ensures
            final(self).reliable() == old(self).reliable(),
            final(self).model().calls == old(self).model().calls.push(
                Call::KillSession { name: name@ },
            ),
            old(self).reliable() ==> (r is Ok <==> old(self).model().sessions.contains_key(name@)),
            r is Ok ==> session_killed(old(self).model(), final(self).model(), name@),
            r is Err ==> unchanged(old(self).model(), final(self).model()),
    ;

    /// Destroys a named window of a session; fails if there is no such session or window.
    fn kill_window(&mut self, session: &str, window_name: &str) -> (r: Result<(), BackendError>)
        ensures
            final(self).reliable() == old(self).reliable(),
            final(self).model().calls == old(self).model().calls.push(
                Call::KillWindow { session: session@, window: window_name@ },
            ),
            old(self).reliable() ==> (r is Ok <==> (old(self).model().sessions.contains_key(
                session@,
            ) && old(self).model().sessions[session@].contains(window_name@))),
            r is Ok ==> window_killed(
                old(self).model(),
                final(self).model(),
                session@,
                window_name@,
            ),
            r is Err ==> unchanged(old(self).model(), final(self).model()),
    ;

    /// Renames the window at a position of a session; fails if there is no
    /// such session or the position is out of range.
    fn rename_window(&mut self, session: &str, window_index: usize, new_name: &str) -> (r: Result<
        (),
        BackendError,
    >)
        ensures
            final(self).reliable() == old(self).reliable(),
            final(self).model().calls == old(self).model().calls.push(
                Call::RenameWindow {
                    session: session@,
                    window: window_index as nat,
                    name: new_name@,
                },
            ),
            old(self).reliable() ==> (r is Ok <==> (old(self).model().sessions.contains_key(
                session@,
            ) && window_index < old(self).model().sessions[session@].len())),
            r is Ok ==> window_renamed(
                old(self).model(),
                final(self).model(),
                session@,
                window_index as nat,
                new_name@,
            ),
            r is Err ==> unchanged(old(self).model(), final(self).model()),
    ;

    /// Attaches the terminal to a session until the user detaches; fails if
    /// there is no such session. The user may change the sessions meanwhile,
    /// so only a reliable backend promises they are unchanged.
    fn attach_session(&mut self, name: &str) -> (r: Result<(), BackendError>)
        ensures
            final(self).reliable() == old(self).reliable(),
            final(self).model().calls == old(self).model().calls.push(Call::Attach { name: name@ }),
            old(self).reliable() ==> (r is Ok <==> old(self).model().sessions.contains_key(name@)),
            old(self).reliable() ==> unchanged(old(self).model(), final(self).model()),
            r is Ok ==> old(self).model().sessions.contains_key(name@),
    ;
}

/// Checks that the multiplexer can be run; a failure means it is unavailable.
pub fn check_tmux_available<B: TmuxBackend>(backend: &B) -> (r: Result<(), SeshError>)
    ensures
        backend.reliable() ==> r is Ok,
        r matches Err(e) ==> e is BackendUnavailable,
{
    match backend.check_available() {
        Ok(()) => Ok(()),
        Err(e) => Err(SeshError::BackendUnavailable(e)),
    }
}

/// Whether a session with this name exists.
pub fn has_session<B: TmuxBackend>(backend: &B, name: &str) -> (r: Result<bool, SeshError>)
    ensures
        backend.reliable() ==> r is Ok,
        r matches Ok(b) ==> b == backend.model().sessions.contains_key(name@),
        r matches Err(e) ==> e is BackendFailed,
{
    match backend.has_session(name) {
        Ok(b) => Ok(b),
        Err(e) => Err(SeshError::BackendFailed(e)),
    }
}

/// The window names of a session, in window order.
pub fn list_windows<B: TmuxBackend>(backend: &B, session: &str) -> (r: Result<
    Vec<String>,
    SeshError,
>)
    ensures
        backend.reliable() ==> (r is Ok <==> backend.model().sessions.contains_key(session@)),
        r matches Ok(ws) ==> {
            &&& backend.model().sessions.contains_key(session@)
            &&& texts_of(ws@) == backend.model().sessions[session@]
        },
        r matches Err(e) ==> e is BackendFailed,
{
    match backend.list_windows(session) {
        Ok(ws) => Ok(ws),
        Err(e) => Err(SeshError::BackendFailed(e)),
    }
}

/// Creates a session with one implicit first window.
pub fn new_session<B: TmuxBackend>(backend: &mut B, name: &str, detached: bool) -> (r: Result<
    (),
    SeshError,
>)
    ensures
        final(backend).reliable() == old(backend).reliable(),
        final(backend).model().calls == old(backend).model().calls.push(
            Call::NewSession { name: name@, detached },
        ),
        old(backend).reliable() ==> (r is Ok <==> !old(backend).model().sessions.contains_key(name@)),
        r is Ok ==> session_created(old(backend).model(), final(backend).model(), name@),
        r is Err ==> unchanged(old(backend).model(), final(backend).model()),
        r matches Err(e) ==> e is BackendFailed,
{
    match backend.new_session(name, detached) {
        Ok(()) => Ok(()),
        Err(e) => Err(SeshError::BackendFailed(e)),
    }
}

/// Appends a window to an existing session.
pub fn new_window<B: TmuxBackend>(
    backend: &mut B,
    session: &str,
    window_name: Option<&str>,
    target_index: Option<usize>,
) -> (r: Result<(), SeshError>)
    ensures
        final(backend).reliable() == old(backend).reliable(),
        final(backend).model().calls == old(backend).model().calls.push(
            Call::NewWindow {
                session: session@,
                name: opt_text(window_name),
                target: opt_index(target_index),
            },
        ),
        old(backend).reliable() ==> (r is Ok <==> old(backend).model().sessions.contains_key(
            session@,
        )),
        r is Ok ==> window_appended(
            old(backend).model(),
            final(backend).model(),
            session@,
            opt_text(window_name),
        ),
        r is Err ==> unchanged(old(backend).model(), final(backend).model()),
        r matches Err(e) ==> e is BackendFailed,
{
    match backend.new_window(session, window_name, target_index) {
        Ok(()) => Ok(()),
        Err(e) => Err(SeshError::BackendFailed(e)),
    }
}

/// Types a command into a window, followed by Enter.
pub fn send_keys<B: TmuxBackend>(
    backend: &mut B,
    session: &str,
    window_index: usize,
    command: &[String],
) -> (r: Result<(), SeshError>)
    ensures
        final(backend).reliable() == old(backend).reliable(),
        final(backend).model().calls == old(backend).model().calls.push(
            Call::SendKeys {
                session: session@,
                window: window_index as nat,
                command: texts_of(command@),
            },
        ),
        old(backend).reliable() ==> (r is Ok <==> old(backend).model().sessions.contains_key(
            session@,
        )),
        r is Ok ==> keys_sent(
            old(backend).model(),
            final(backend).model(),
            session@,
            window_index as nat,
            texts_of(command@),
        ),
        r is Err ==> unchanged(old(backend).model(), final(backend).model()),
        r matches Err(e) ==> e is BackendFailed,
{
    match backend.send_keys(session, window_index, command) {
        Ok(()) => Ok(()),
        Err(e) => Err(SeshError::BackendFailed(e)),
    }
}

/// Destroys a session.
pub fn kill_session<B: TmuxBackend>(backend: &mut B, name: &str) -> (r: Result<(), SeshError>)
    ensures
        final(backend).reliable() == old(backend).reliable(),
        final(backend).model().calls == old(backend).model().calls.push(
            Call::KillSession { name: name@ },
        ),
        old(backend).reliable() ==> (r is Ok <==> old(backend).model().sessions.contains_key(name@)),
        r is Ok ==> session_killed(old(backend).model(), final(backend).model(), name@),
        r is Err ==> unchanged(old(backend).model(), final(backend).model()),
        r matches Err(e) ==> e is BackendFailed,
{
    match backend.kill_session(name) {
        Ok(()) => Ok(()),
        Err(e) => Err(SeshError::BackendFailed(e)),
    }
}

/// Destroys a named window of a session.
pub fn kill_window<B: TmuxBackend>(backend: &mut B, session: &str, window_name: &str) -> (r:
    Result<(), SeshError>)
    ensures
        final(backend).reliable() == old(backend).reliable(),
        final(backend).model().calls == old(backend).model().calls.push(
            Call::KillWindow { session: session@, window: window_name@ },
        ),
        old(backend).reliable() ==> (r is Ok <==> (old(backend).model().sessions.contains_key(
            session@,
        ) && old(backend).model().sessions[session@].contains(window_name@))),
        r is Ok ==> window_killed(
            old(backend).model(),
            final(backend).model(),
            session@,
            window_name@,
        ),
        r is Err ==> unchanged(old(backend).model(), final(backend).model()),
        r matches Err(e) ==> e is BackendFailed,
{
    match backend.kill_window(session, window_name) {
        Ok(()) => Ok(()),
        Err(e) => Err(SeshError::BackendFailed(e)),
    }
}

/// Renames the window at a position of a session.
pub fn rename_window<B: TmuxBackend>(
    backend: &mut B,
    session: &str,
    window_index: usize,
    new_name: &str,
) -> (r: Result<(), SeshError>)
    ensures
        final(backend).reliable() == old(backend).reliable(),
        final(backend).model().calls == old(backend).model().calls.push(
            Call::RenameWindow { session: session@, window: window_index as nat, name: new_name@ },
        ),
        old(backend).reliable() ==> (r is Ok <==> (old(backend).model().sessions.contains_key(
            session@,
        ) && window_index < old(backend).model().sessions[session@].len())),
        r is Ok ==> window_renamed(
            old(backend).model(),
            final(backend).model(),
            session@,
            window_index as nat,
            new_name@,
        ),
        r is Err ==> unchanged(old(backend).model(), final(backend).model()),
        r matches Err(e) ==> e is BackendFailed,
{
    match backend.rename_window(session, window_index, new_name) {
        Ok(()) => Ok(()),
        Err(e) => Err(SeshError::BackendFailed(e)),
    }
}

/// Attaches the terminal to a session until the user detaches.
pub fn attach_session<B: TmuxBackend>(backend: &mut B, name: &str) -> (r: Result<(), SeshError>)
    ensures
        final(backend).reliable() == old(backend).reliable(),
        final(backend).model().calls == old(backend).model().calls.push(Call::Attach { name: name@ }),
        old(backend).reliable() ==> (r is Ok <==> old(backend).model().sessions.contains_key(name@)),
        old(backend).reliable() ==> unchanged(old(backend).model(), final(backend).model()),
        r is Ok ==> old(backend).model().sessions.contains_key(name@),
        r matches Err(e) ==> e is BackendFailed,
{
    match backend.attach_session(name) {
        Ok(()) => Ok(()),
        Err(e) => Err(SeshError::BackendFailed(e)),
    }
}

/// The session names of a table of sessions, in order.
pub open spec fn session_names(entries: Seq<(String, Vec<String>)>) -> Seq<Seq<char>> {
    entries.map_values(|e: (String, Vec<String>)| e.0@)
}

/// A table of sessions as a map from session name to window names.
pub open spec fn session_table(entries: Seq<(String, Vec<String>)>) -> Map<
    Seq<char>,
    Seq<Seq<char>>,
> {
    Map::new(
        |k: Seq<char>| session_names(entries).contains(k),
        |k: Seq<char>| texts_of(entries[session_names(entries).index_of(k)].1@),
    )
}

/// A log of sent keys as plain values.
pub open spec fn sent_log(log: Seq<(String, usize, Vec<String>)>) -> Seq<SentKeys> {
    log.map_values(
        |c: (String, usize, Vec<String>)|
            SentKeys { session: c.0@, window: c.1 as nat, command: texts_of(c.2@) },
    )
}

proof fn lemma_index_of_unique(s: Seq<Seq<char>>, i: int)
    requires
        s.no_duplicates(),
        0 <= i < s.len(),
    ensures
        s.contains(s[i]),
        s.index_of(s[i]) == i,
{
    assert(s.contains(s[i]));
}

proof fn lemma_table_push(entries: Seq<(String, Vec<String>)>, e: (String, Vec<String>))
    requires
        session_names(entries).no_duplicates(),
        !session_names(entries).contains(e.0@),
    ensures
        session_names(entries.push(e)).no_duplicates(),
        session_table(entries.push(e)) == session_table(entries).insert(e.0@, texts_of(e.1@)),
{
    let names = session_names(entries);
    let more = entries.push(e);
    let mnames = session_names(more);
    assert(mnames =~= names.push(e.0@));
    assert forall|a: int, b: int|
        0 <= a < mnames.len() && 0 <= b < mnames.len() && a != b implies mnames[a]
        != mnames[b] by {
        if a == names.len() {
            assert(names[b] != e.0@);
        } else if b == names.len() {
            assert(names[a] != e.0@);
        }
    }
    let t0 = session_table(entries);
    let t1 = session_table(more);
    let goal = t0.insert(e.0@, texts_of(e.1@));
    assert forall|k: Seq<char>| #[trigger] t1.contains_key(k) == goal.contains_key(k) by {
        if mnames.contains(k) {
            let j = mnames.index_of(k);
            if j < names.len() {
                assert(names[j] == k);
            }
        }
        if names.contains(k) {
            let j = names.index_of(k);
            assert(mnames[j] == k);
        }
        if k == e.0@ {
            assert(mnames[names.len() as int] == k);
        }
    }
    assert forall|k: Seq<char>| t1.contains_key(k) implies #[trigger] t1[k] == goal[k] by {
        let j = mnames.index_of(k);
        if j < names.len() {
            assert(names[j] == k);
            lemma_index_of_unique(names, j);
        }
    }
    assert(t1 =~= goal);
}

proof fn lemma_table_remove(entries: Seq<(String, Vec<String>)>, i: int)
    requires
        session_names(entries).no_duplicates(),
        0 <= i < entries.len(),
    ensures
        session_names(entries.remove(i)).no_duplicates(),
        session_table(entries.remove(i)) == session_table(entries).remove(entries[i].0@),
{
    let names = session_names(entries);
    let fewer = entries.remove(i);
    let fnames = session_names(fewer);
    assert(fnames =~= names.remove(i));
    assert forall|a: int, b: int|
        0 <= a < fnames.len() && 0 <= b < fnames.len() && a != b implies fnames[a]
        != fnames[b] by {
        let aa = if a < i { a } else { a + 1 };
        let bb = if b < i { b } else { b + 1 };
        assert(fnames[a] == names[aa]);
        assert(fnames[b] == names[bb]);
    }
    let t0 = session_table(entries);
    let t1 = session_table(fewer);
    let goal = t0.remove(entries[i].0@);
    assert forall|k: Seq<char>| #[trigger] t1.contains_key(k) == goal.contains_key(k) by {
        if fnames.contains(k) {
            let j = fnames.index_of(k);
            let jj = if j < i { j } else { j + 1 };
            assert(names[jj] == k);
            assert(names[i] != k);
        }
        if names.contains(k) && k != entries[i].0@ {
            let j = names.index_of(k);
            assert(j != i);
            let jj = if j < i { j } else { j - 1 };
            assert(fnames[jj] == k);
        }
    }
    assert forall|k: Seq<char>| t1.contains_key(k) implies #[trigger] t1[k] == goal[k] by {
        let j = fnames.index_of(k);
        let jj = if j < i { j } else { j + 1 };
        assert(names[jj] == k);
        lemma_index_of_unique(names, jj);
    }
    assert(t1 =~= goal);
}

proof fn lemma_table_update(entries: Seq<(String, Vec<String>)>, i: int, ws: Vec<String>)
    requires
        session_names(entries).no_duplicates(),
        0 <= i < entries.len(),
    ensures
        session_names(entries.update(i, (entries[i].0, ws))).no_duplicates(),
        session_table(entries.update(i, (entries[i].0, ws))) == session_table(entries).insert(
            entries[i].0@,
            texts_of(ws@),
        ),
{
    let names = session_names(entries);
    let changed = entries.update(i, (entries[i].0, ws));
    assert(session_names(changed) =~= names);
    let t0 = session_table(entries);
    let t1 = session_table(changed);
    let goal = t0.insert(entries[i].0@, texts_of(ws@));
    assert(names[i] == entries[i].0@);
    assert forall|k: Seq<char>| #[trigger] t1.contains_key(k) == goal.contains_key(k) by {}
    assert forall|k: Seq<char>| t1.contains_key(k) implies #[trigger] t1[k] == goal[k] by {
        let j = names.index_of(k);
        lemma_index_of_unique(names, j);
        lemma_index_of_unique(names, i);
    }
    assert(t1 =~= goal);
}

/// The first position of `target` in `ws`, if it occurs.
pub(crate) fn find_text(ws: &Vec<String>, target: &String) -> (r: Option<usize>)
    ensures
        r matches Some(p) ==> p < ws@.len() && ws@[p as int]@ == target@ && forall|j: int|
            0 <= j < p ==> #[trigger] ws@[j]@ != target@,
        r is None ==> forall|j: int| 0 <= j < ws@.len() ==> #[trigger] ws@[j]@ != target@,
{
    let mut p: usize = 0;
    while p < ws.len()
        invariant
            p <= ws@.len(),
            forall|j: int| 0 <= j < p ==> #[trigger] ws@[j]@ != target@,
        decreases ws@.len() - p,
    {
        if ws[p] == *target {
            return Some(p);
        }
        p += 1;
    }
    None
}

/// An in-memory backend: a table of sessions and a log of the keys sent.
/// A new session's implicit first window is called `bash`, a window created
/// without a name `unnamed`. Every call fails exactly where the trait says it may.
pub struct MockTmuxBackend {
    sessions: Vec<(String, Vec<String>)>,
    commands_sent: Vec<(String, usize, Vec<String>)>,
    calls: Ghost<Seq<Call>>,
}

impl MockTmuxBackend {
    #[verifier::type_invariant]
    spec fn names_unique(self) -> bool {
        session_names(self.sessions@).no_duplicates()
    }

    /// Where the session `name` stands in the table.
    fn position(&self, name: &str) -> (r: Option<usize>)
        ensures
            r matches Some(i) ==> {
                &&& i < self.sessions@.len()
                &&& self.sessions@[i as int].0@ == name@
                &&& self.model().sessions.contains_key(name@)
                &&& self.model().sessions[name@] == texts_of(self.sessions@[i as int].1@)
            },
            r is None ==> !self.model().sessions.contains_key(name@),
    {
        proof {
            use_type_invariant(self);
        }
        let key = name.to_owned();
        let mut i: usize = 0;
        while i < self.sessions.len()
            invariant
                i <= self.sessions@.len(),
                key@ == name@,
                session_names(self.sessions@).no_duplicates(),
                forall|j: int| 0 <= j < i ==> #[trigger] self.sessions@[j].0@ != name@,
            decreases self.sessions@.len() - i,
        {
            if self.sessions[i].0 == key {
                proof {
                    let names = session_names(self.sessions@);
                    assert(names[i as int] == name@);
                    lemma_index_of_unique(names, i as int);
                }
                return Some(i);
            }
            i += 1;
        }
        proof {
            let names = session_names(self.sessions@);
            assert forall|j: int| 0 <= j < names.len() implies names[j] != name@ by {
                assert(self.sessions@[j].0@ != name@);
            }
        }
        None
    }

    /// A backend with no sessions, no keys sent and no calls made.
    pub fn new() -> (r: MockTmuxBackend)
        ensures
            r.model().sessions == Map::<Seq<char>, Seq<Seq<char>>>::empty(),
            r.model().sent == Seq::<SentKeys>::empty(),
            r.model().calls == Seq::<Call>::empty(),
    {
        let r = MockTmuxBackend {
            sessions: Vec::new(),
            commands_sent: Vec::new(),
            calls: Ghost(Seq::empty()),
        };
        proof {
            assert(session_table(r.sessions@) =~= Map::<Seq<char>, Seq<Seq<char>>>::empty());
            assert(sent_log(r.commands_sent@) =~= Seq::<SentKeys>::empty());
        }
        r
    }

    /// This backend with the session `name` holding exactly `windows`, in place
    /// of any session of that name.
    pub fn with_session(self, name: &str, windows: Vec<&str>) -> (r: MockTmuxBackend)
        ensures
            r.model().sessions == self.model().sessions.insert(
                name@,
                windows@.map_values(|w: &str| w@),
            ),
            r.model().sent == self.model().sent,
            r.model().calls == self.model().calls,
    {
        proof {
            use_type_invariant(&self);
        }
        let mut ws: Vec<String> = Vec::new();
        let mut i: usize = 0;
        while i < windows.len()
            invariant
                i <= windows@.len(),
                texts_of(ws@) == windows@.subrange(0, i as int).map_values(|w: &str| w@),
            decreases windows@.len() - i,
        {
            let ghost before = ws@;
            ws.push(windows[i].to_owned());
            proof {
                assert(texts_of(ws@) =~= texts_of(before).push(windows@[i as int]@));
                assert(windows@.subrange(0, i + 1).map_values(|w: &str| w@) =~= windows@.subrange(
                    0,
                    i as int,
                ).map_values(|w: &str| w@).push(windows@[i as int]@));
            }
            i += 1;
        }
        proof {
            assert(windows@.subrange(0, windows@.len() as int) == windows@);
        }
        let mut me = self;
        let mut entries: Vec<(String, Vec<String>)> = Vec::new();
        std::mem::swap(&mut entries, &mut me.sessions);
        let mut p: usize = 0;
        let key = name.to_owned();
        let mut found = false;
        while p < entries.len() && !found
            invariant
                p <= entries@.len(),
                key@ == name@,
                found ==> p < entries@.len() && entries@[p as int].0@ == name@,
                !found ==> forall|j: int| 0 <= j < p ==> #[trigger] entries@[j].0@ != name@,
            decreases entries@.len() - p + (if found { 0int } else { 1int }),
        {
            if entries[p].0 == key {
                found = true;
            } else {
                p += 1;
            }
        }
        proof {
            let names = session_names(entries@);
            if !found {
                assert forall|j: int| 0 <= j < names.len() implies names[j] != name@ by {
                    assert(entries@[j].0@ != name@);
                }
            }
        }
        if found {
            let k = entries[p].0.clone();
            proof {
                lemma_table_update(entries@, p as int, ws);
            }
            entries.set(p, (k, ws));
        } else {
            let entry = (key, ws);
            proof {
                lemma_table_push(entries@, entry);
            }
            entries.push(entry);
        }
        me.sessions = entries;
        me
    }

    /// Every session with its window names; no two carry the same name.
    pub fn get_sessions(&self) -> (r: Vec<(String, Vec<String>)>)
        ensures
            session_table(r@) == self.model().sessions,
            session_names(r@).no_duplicates(),
    {
        proof {
            use_type_invariant(self);
        }
        let mut r: Vec<(String, Vec<String>)> = Vec::new();
        let mut i: usize = 0;
        while i < self.sessions.len()
            invariant
                i <= self.sessions@.len(),
                r@.len() == i,
                forall|j: int|
                    0 <= j < i ==> #[trigger] r@[j].0@ == self.sessions@[j].0@ && texts_of(
                        r@[j].1@,
                    ) == texts_of(self.sessions@[j].1@),
            decreases self.sessions@.len() - i,
        {
            let e = (self.sessions[i].0.clone(), copy_texts(self.sessions[i].1.as_slice()));
            r.push(e);
            i += 1;
        }
        proof {
            assert(session_names(r@) =~= session_names(self.sessions@));
            assert(session_table(r@) =~= session_table(self.sessions@));
        }
        r
    }

    /// Every line of keys sent, in the order sent.
    pub fn get_commands_sent(&self) -> (r: Vec<(String, usize, Vec<String>)>)
        ensures
            sent_log(r@) == self.model().sent,
    {
        let mut r: Vec<(String, usize, Vec<String>)> = Vec::new();
        let mut i: usize = 0;
        while i < self.commands_sent.len()
            invariant
                i <= self.commands_sent@.len(),
                sent_log(r@) == sent_log(self.commands_sent@.subrange(0, i as int)),
            decreases self.commands_sent@.len() - i,
        {
            let c = &self.commands_sent[i];
            let e = (c.0.clone(), c.1, copy_texts(c.2.as_slice()));
            let ghost before = r@;
            r.push(e);
            proof {
                assert(sent_log(r@) =~= sent_log(before).push(sent_log(self.commands_sent@)[i as int]));
                assert(self.commands_sent@.subrange(0, i + 1) =~= self.commands_sent@.subrange(
                    0,
                    i as int,
                ).push(self.commands_sent@[i as int]));
                assert(sent_log(self.commands_sent@.subrange(0, i + 1)) =~= sent_log(
                    self.commands_sent@.subrange(0, i as int),
                ).push(sent_log(self.commands_sent@)[i as int]));
            }
            i += 1;
        }
        proof {
            assert(self.commands_sent@.subrange(0, self.commands_sent@.len() as int)
                == self.commands_sent@);
        }
        r
    }
}

impl TmuxBackend for MockTmuxBackend {
    closed spec fn model(&self) -> TmuxModel {
        TmuxModel {
            sessions: session_table(self.sessions@),
            sent: sent_log(self.commands_sent@),
            calls: self.calls@,
        }
    }

    open spec fn reliable(&self) -> bool {
        true
    }

    fn check_available(&self) -> (r: Result<(), BackendError>) {
        Ok(())
    }

    fn has_session(&self, name: &str) -> (r: Result<bool, BackendError>) {
        Ok(self.position(name).is_some())
    }

    fn list_windows(&self, session: &str) -> (r: Result<Vec<String>, BackendError>) {
        match self.position(session) {
            Some(i) => Ok(copy_texts(self.sessions[i].1.as_slice())),
            None => Err(quoted_error("Session ", session, " not found")),
        }
    }

    fn new_session(&mut self, name: &str, detached: bool) -> (r: Result<(), BackendError>)
        ensures
            r is Ok ==> final(self).model().sessions[name@] == seq!["bash"@],
    {
        proof {
            use_type_invariant(&*self);
        }
        self.calls = Ghost(self.calls@.push(Call::NewSession { name: name@, detached }));
        if self.position(name).is_some() {
            return Err(quoted_error("Session ", name, " already exists"));
        }
        let first = vec![String::from_str("bash")];
        let entry = (name.to_owned(), first);
        proof {
            lemma_table_push(self.sessions@, entry);
            assert(texts_of(entry.1@) =~= seq!["bash"@]);
        }
        let mut entries: Vec<(String, Vec<String>)> = Vec::new();
        std::mem::swap(&mut entries, &mut self.sessions);
        entries.push(entry);
        self.sessions = entries;
        Ok(())
    }

    fn new_window(
        &mut self,
        session: &str,
        window_name: Option<&str>,
        target_index: Option<usize>,
    ) -> (r: Result<(), BackendError>)
        ensures
            r is Ok && window_name is None ==> final(self).model().sessions[session@].last()
                == "unnamed"@,
    {
        proof {
            use_type_invariant(&*self);
        }
        self.calls = Ghost(
            self.calls@.push(
                Call::NewWindow {
                    session: session@,
                    name: opt_text(window_name),
                    target: opt_index(target_index),
                },
            ),
        );
        let i = match self.position(session) {
            Some(i) => i,
            None => return Err(quoted_error("Session ", session, " not found")),
        };
        let name = match window_name {
            Some(n) => n.to_owned(),
            None => String::from_str("unnamed"),
        };
        let mut ws = copy_texts(self.sessions[i].1.as_slice());
        let ghost before = ws@;
        ws.push(name);
        let key = self.sessions[i].0.clone();
        proof {
            lemma_table_update(self.sessions@, i as int, ws);
            assert(texts_of(ws@) =~= texts_of(before).push(name@));
        }
        let mut entries: Vec<(String, Vec<String>)> = Vec::new();
        std::mem::swap(&mut entries, &mut self.sessions);
        entries.set(i, (key, ws));
        self.sessions = entries;
        Ok(())
    }

    fn send_keys(&mut self, session: &str, window_index: usize, command: &[String]) -> (r: Result<
        (),
        BackendError,
    >) {
        proof {
            use_type_invariant(&*self);
        }
        self.calls = Ghost(
            self.calls@.push(
                Call::SendKeys {
                    session: session@,
                    window: window_index as nat,
                    command: texts_of(command@),
                },
            ),
        );
        if self.position(session).is_none() {
            return Err(quoted_error("Session ", session, " not found"));
        }
        let line = (session.to_owned(), window_index, copy_texts(command));
        let ghost before = self.commands_sent@;
        let mut log: Vec<(String, usize, Vec<String>)> = Vec::new();
        std::mem::swap(&mut log, &mut self.commands_sent);
        log.push(line);
        self.commands_sent = log;
        proof {
            assert(sent_log(self.commands_sent@) =~= sent_log(before).push(
                SentKeys {
                    session: session@,
                    window: window_index as nat,
                    command: texts_of(command@),
                },
            ));
        }
        Ok(())
    }

    fn kill_session(&mut self, name: &str) -> (r: Result<(), BackendError>) {
        proof {
            use_type_invariant(&*self);
        }
        self.calls = Ghost(self.calls@.push(Call::KillSession { name: name@ }));
        let i = match self.position(name) {
            Some(i) => i,
            None => return Err(quoted_error("Session ", name, " not found")),
        };
        proof {
            lemma_table_remove(self.sessions@, i as int);
        }
        let mut entries: Vec<(String, Vec<String>)> = Vec::new();
        std::mem::swap(&mut entries, &mut self.sessions);
        entries.remove(i);
        self.sessions = entries;
        Ok(())
    }

    fn kill_window(&mut self, session: &str, window_name: &str) -> (r: Result<(), BackendError>) {
        proof {
            use_type_invariant(&*self);
        }
        self.calls = Ghost(
            self.calls@.push(Call::KillWindow { session: session@, window: window_name@ }),
        );
        let i = match self.position(session) {
            Some(i) => i,
            None => return Err(quoted_error("Session ", session, " not found")),
        };
        let mut ws = copy_texts(self.sessions[i].1.as_slice());
        let target = window_name.to_owned();
        let p = match find_text(&ws, &target) {
            Some(p) => p,
            None => {
                proof {
                    assert forall|j: int| 0 <= j < ws@.len() implies texts_of(ws@)[j]
                        != window_name@ by {
                        assert(ws@[j]@ != window_name@);
                    }
                }
                return Err(quoted_error("Window ", window_name, " not found in session"));
            },
        };
        let ghost before = ws@;
        ws.remove(p);
        let key = self.sessions[i].0.clone();
        proof {
            let names = texts_of(before);
            assert(names[p as int] == window_name@);
            names.index_of_first_ensures(window_name@);
            let first = names.index_of_first(window_name@);
            assert(forall|j: int| 0 <= j < p ==> names[j] != window_name@);
            assert(first == Some(p as int));
            assert(texts_of(ws@) =~= names.remove(p as int));
            lemma_table_update(self.sessions@, i as int, ws);
        }
        let mut entries: Vec<(String, Vec<String>)> = Vec::new();
        std::mem::swap(&mut entries, &mut self.sessions);
        entries.set(i, (key, ws));
        self.sessions = entries;
        Ok(())
    }

    fn rename_window(&mut self, session: &str, window_index: usize, new_name: &str) -> (r: Result<
        (),
        BackendError,
    >) {
        proof {
            use_type_invariant(&*self);
        }
        self.calls = Ghost(
            self.calls@.push(
                Call::RenameWindow {
                    session: session@,
                    window: window_index as nat,
                    name: new_name@,
                },
            ),
        );
        let i = match self.position(session) {
            Some(i) => i,
            None => return Err(quoted_error("Session ", session, " not found")),
        };
        let mut ws = copy_texts(self.sessions[i].1.as_slice());
        if window_index >= ws.len() {
            return Err(quoted_error("Window index out of range in session ", session, ""));
        }
        let ghost before = ws@;
        ws.set(window_index, new_name.to_owned());
        let key = self.sessions[i].0.clone();
        proof {
            assert(texts_of(ws@) =~= texts_of(before).update(window_index as int, new_name@));
            lemma_table_update(self.sessions@, i as int, ws);
        }
        let mut entries: Vec<(String, Vec<String>)> = Vec::new();
        std::mem::swap(&mut entries, &mut self.sessions);
        entries.set(i, (key, ws));
        self.sessions = entries;
        Ok(())
    }

    fn attach_session(&mut self, name: &str) -> (r: Result<(), BackendError>) {
        proof {
            use_type_invariant(&*self);
        }
        self.calls = Ghost(self.calls@.push(Call::Attach { name: name@ }));
        match self.position(name) {
            Some(_) => Ok(()),
            None => Err(quoted_error("Session ", name, " not found")),
        }
    }
}

} // verus!
