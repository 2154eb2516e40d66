//! Laws relating successive reconciliation runs, proved over the contracts of
//! `run_up`, `run_down` and `run_status`.

use crate::conf::ConfigView;
use crate::reconcile::{
    created_names, down_result, keys_for, up_calls, window_calls, status_result, up_plan, up_result, window_exists,
    DownOutcome, SessionStatus, UpReport, WindowOutcome,
};
use crate::tmux::TmuxModel;
use vstd::prelude::*;

verus! {

proof fn lemma_nothing_planned(
    d: ConfigView,
    plan: Seq<WindowOutcome>,
    n: nat,
)
    requires
        n <= plan.len(),
        forall|i: int| 0 <= i < plan.len() ==> #[trigger] plan[i] == WindowOutcome::AlreadyExists,
    ensures
        created_names(d.windows, plan, n) == Seq::<Option<Seq<char>>>::empty(),
        keys_for(d.name, d.windows, plan, n) == Seq::<crate::tmux::SentKeys>::empty(),
        window_calls(d.name, d.windows, plan, n) == Seq::<crate::tmux::Call>::empty(),
    decreases n,
{
    if n > 0 {
        lemma_nothing_planned(d, plan, (n - 1) as nat);
    }
}

proof fn lemma_created_in_new_session(d: ConfigView, n: nat)
    requires
        1 <= n <= d.windows.len(),
    ensures
        ({
            let plan = up_plan(d.windows, false, Seq::<Seq<char>>::empty());
            let created = created_names(d.windows, plan, n);
            &&& created.len() == n - 1
            &&& forall|j: int| 0 <= j < n - 1 ==> #[trigger] created[j] == d.windows[j + 1].name
        }),
    decreases n,
{
    let plan = up_plan(d.windows, false, Seq::<Seq<char>>::empty());
    assert(!window_exists(d.windows[n - 1], Seq::<Seq<char>>::empty()));
    if n > 1 {
        lemma_created_in_new_session(d, (n - 1) as nat);
        assert(plan[n - 1] is Created);
    } else {
        assert(plan[0] is FirstWindow);
        assert(created_names(d.windows, plan, 0).len() == 0);
    }
}

/// A second `run_up` of the same declaration issues no window creation and no
/// keys for a declared window whose name was running after the first.
pub proof fn up_again_skips_running_windows(
    d: ConfigView,
    m0: TmuxModel,
    m1: TmuxModel,
    m2: TmuxModel,
    first: UpReport,
    second: UpReport,
)
    requires
        up_result(d, m0, m1, first),
        up_result(d, m1, m2, second),
    ensures
        forall|i: int|
            0 <= i < d.windows.len() && #[trigger] window_exists(d.windows[i], m1.sessions[d.name])
                ==> second.windows@[i] == WindowOutcome::AlreadyExists,
{
}

/// When every declared window is named and running after a `run_up`, a second
/// `run_up` of the same declaration leaves the live state as it found it.
pub proof fn up_is_idempotent(
    d: ConfigView,
    m0: TmuxModel,
    m1: TmuxModel,
    m2: TmuxModel,
    first: UpReport,
    second: UpReport,
)
    requires
        up_result(d, m0, m1, first),
        up_result(d, m1, m2, second),
        forall|i: int|
            0 <= i < d.windows.len() ==> #[trigger] window_exists(d.windows[i], m1.sessions[d.name]),
    ensures
        m2 == m1,
        forall|i: int|
            0 <= i < d.windows.len() ==> second.windows@[i] == WindowOutcome::AlreadyExists,
{
    let plan = second.windows@;
    assert forall|i: int| 0 <= i < plan.len() implies #[trigger] plan[i]
        == WindowOutcome::AlreadyExists by {
        assert(window_exists(d.windows[i], m1.sessions[d.name]));
    }
    lemma_nothing_planned(d, plan, d.windows.len());
    let live = m2.sessions[d.name];
    assert(live =~= live.subrange(0, m1.sessions[d.name].len() as int));
    assert(m2.sessions =~= m1.sessions);
    assert(m2.sent =~= m1.sent);
    assert(up_calls(d, m1) =~= Seq::<crate::tmux::Call>::empty());
    assert(m2.calls =~= m1.calls);
}

/// After a successful `run_down`, `run_status` reports the session as not running.
pub proof fn down_then_status_not_running(
    d: ConfigView,
    m0: TmuxModel,
    m1: TmuxModel,
    o: DownOutcome,
    st: SessionStatus,
)
    requires
        down_result(d.name, m0, m1, o),
        status_result(d, m1, st),
    ensures
        st is NotRunning,
{
}

/// `run_up` of a session that did not exist leaves a session holding the name of
/// every named declared window, and as many windows as declared (at least the
/// implicit first one). The first declared window takes over the implicit first
/// window, whose name the backend chose: its own name is therefore running only
/// when that name matches, or when a later declared window carries it too.
pub proof fn up_new_session_holds_declared_names(
    d: ConfigView,
    m0: TmuxModel,
    m1: TmuxModel,
    rep: UpReport,
)
    requires
        up_result(d, m0, m1, rep),
        !m0.sessions.contains_key(d.name),
        d.windows.len() > 0 && d.windows[0].name is Some ==> {
            ||| m1.sessions[d.name][0] == d.windows[0].name->0
            ||| exists|j: int| 1 <= j < d.windows.len() && #[trigger] d.windows[j].name == d.windows[0].name
        },
    ensures
        forall|i: int|
            0 <= i < d.windows.len() && #[trigger] d.windows[i].name is Some ==> m1.sessions[d.name].contains(
                d.windows[i].name->0,
            ),
        m1.sessions[d.name].len() == if d.windows.len() == 0 {
            1
        } else {
            d.windows.len()
        },
{
    let live = m1.sessions[d.name];
    let n = d.windows.len();
    if n > 0 {
        lemma_created_in_new_session(d, n);
        let plan = up_plan(d.windows, false, Seq::<Seq<char>>::empty());
        let created = created_names(d.windows, plan, n);
        let picked = live.subrange(1, live.len() as int);
        assert forall|j: int| 1 <= j < n && d.windows[j].name is Some implies live[j]
            == d.windows[j].name->0 by {
            assert(created[j - 1] == d.windows[j].name);
            assert(picked[j - 1] == live[j]);
        }
        assert forall|i: int| 0 <= i < n && #[trigger] d.windows[i].name is Some implies live.contains(
            d.windows[i].name->0,
        ) by {
            if i == 0 {
                if live[0] != d.windows[0].name->0 {
                    let j = choose|j: int| 1 <= j < n && #[trigger] d.windows[j].name == d.windows[0].name;
                    assert(live[j] == d.windows[0].name->0);
                }
            } else {
                assert(live[i] == d.windows[i].name->0);
            }
        }
    } else {
        assert(created_names(d.windows, up_plan(d.windows, false, Seq::<Seq<char>>::empty()), 0).len() == 0);
    }
}

} // verus!
