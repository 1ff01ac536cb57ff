//! The single-mount switch protocol: idle check, unmount of the active
//! backend, mount of the target with one retry, rollback to the previous
//! backend on repeated failure, and the commit into the runtime state.
//!
//! The mount and unmount operations themselves run outside this crate. Their
//! outcomes arrive here as a [`SwitchEnv`]: the executor performs each step
//! the protocol calls for and records what happened; this module decides what
//! those outcomes mean for the runtime state, and for every combination of
//! outcomes it proves that at no instant were both backends mounted.

use vstd::prelude::*;

use crate::engine::{spec_plan_share_action, BackendObservation, ShareAction, ShareRuntimeState};
use crate::Backend;

verus! {

broadcast use vstd::set::group_set_axioms;

/// Result of a single-mount backend switch operation.
#[derive(Debug, Clone, PartialEq)]
pub enum SwitchResult {
    /// Switch completed successfully.
    Success,
    /// Cannot switch: open files detected on current mount.
    BusyOpenFiles,
    /// Failed to unmount the current backend.
    UnmountFailed(String),
    /// Failed to mount the new backend.
    MountFailed {
        /// True if the previous backend was successfully remounted.
        rolled_back: bool,
        /// The mount error message.
        error: String,
    },
}

/// The outcomes of the operations the switch protocol performs, in the order
/// it would perform them. A field is only meaningful when the protocol
/// reaches the step it belongs to.
#[derive(Debug, Clone)]
pub struct SwitchEnv {
    /// The mount point held a live mount when the switch started.
    pub from_mounted: bool,
    /// Open file handles were found under the mount point.
    pub open_handles: bool,
    /// Unmounting the current mount succeeded.
    pub unmount_ok: bool,
    /// Why the unmount failed, when it did.
    pub unmount_error: String,
    /// The first mount attempt of the target backend succeeded.
    pub mount_ok: bool,
    /// The retried mount attempt succeeded.
    pub retry_ok: bool,
    /// Why the mount failed, when it did.
    pub mount_error: String,
    /// Remounting the previous backend succeeded.
    pub rollback_ok: bool,
}

/// The protocol stops at the idle check: files are open and force is off.
pub open spec fn spec_switch_busy(force: bool, env: SwitchEnv) -> bool {
    !force && env.from_mounted && env.open_handles
}

/// The protocol stops because the active mount would not unmount.
pub open spec fn spec_switch_unmount_failed(force: bool, env: SwitchEnv) -> bool {
    !spec_switch_busy(force, env) && env.from_mounted && !env.unmount_ok
}

/// The protocol reaches the mount step.
pub open spec fn spec_switch_reaches_mount(force: bool, env: SwitchEnv) -> bool {
    !spec_switch_busy(force, env) && !spec_switch_unmount_failed(force, env)
}

/// The error recorded when the mount failed, the retry failed, and the
/// rollback failed as well: both failures are reflected.
pub open spec fn spec_rollback_failed_error(mount_error: Seq<char>) -> Seq<char> {
    mount_error + "; rollback to previous backend also failed"@
}

/// Run the decision side of the switch protocol over the recorded outcomes:
/// what result the switch reports, and what the share's runtime state
/// becomes. The state is unchanged on the busy and unmount-failure paths; a
/// successful switch commits the target backend; a failed switch that rolled
/// back keeps the previous backend and records the error; a failed rollback
/// leaves no active backend and records both failures.
pub fn switch_protocol(
    entry: &ShareRuntimeState,
    from: Backend,
    to: Backend,
    force: bool,
    env: &SwitchEnv,
    now: u64,
) -> (r: (SwitchResult, ShareRuntimeState))
    ensures
        spec_switch_busy(force, *env) ==> r.0 is BusyOpenFiles && r.1 == *entry,
        spec_switch_unmount_failed(force, *env) ==> r.0 == SwitchResult::UnmountFailed(
            env.unmount_error,
        ) && r.1 == *entry,
        spec_switch_reaches_mount(force, *env) && (env.mount_ok || env.retry_ok) ==> r.0 is Success
            && r.1 == (ShareRuntimeState {
            active_backend: Some(to),
            last_switch_at: Some(now),
            tb_recovery_pending: false,
            last_error: None,
            ..*entry
        }),
        spec_switch_reaches_mount(force, *env) && !env.mount_ok && !env.retry_ok
            && env.rollback_ok ==> r.0 == (SwitchResult::MountFailed {
            rolled_back: true,
            error: env.mount_error,
        }) && r.1 == (ShareRuntimeState { last_error: Some(env.mount_error), ..*entry }),
        spec_switch_reaches_mount(force, *env) && !env.mount_ok && !env.retry_ok
            && !env.rollback_ok ==> r.0 == (SwitchResult::MountFailed {
            rolled_back: false,
            error: env.mount_error,
        }) && r.1.active_backend is None && (r.1.last_error matches Some(m) && m@
            == spec_rollback_failed_error(env.mount_error@)) && r.1.last_switch_at
            == entry.last_switch_at && r.1.tb_reachable_since == entry.tb_reachable_since
            && r.1.tb_healthy_since == entry.tb_healthy_since && r.1.tb_recovery_pending
            == entry.tb_recovery_pending,
{
    let _ = from;
    if !force && env.from_mounted && env.open_handles {
        return (SwitchResult::BusyOpenFiles, entry.snapshot());
    }
    if env.from_mounted && !env.unmount_ok {
        return (SwitchResult::UnmountFailed(env.unmount_error.clone()), entry.snapshot());
    }
    if env.mount_ok || env.retry_ok {
        let mut committed = entry.snapshot();
        committed.active_backend = Some(to);
        committed.last_switch_at = Some(now);
        committed.tb_recovery_pending = false;
        committed.last_error = None;
        return (SwitchResult::Success, committed);
    }
    if env.rollback_ok {
        let mut state = entry.snapshot();
        state.last_error = Some(env.mount_error.clone());
        return (
            SwitchResult::MountFailed { rolled_back: true, error: env.mount_error.clone() },
            state,
        );
    }
    let mut state = entry.snapshot();
    state.active_backend = None;
    let mut message = env.mount_error.clone();
    message.append("; rollback to previous backend also failed");
    state.last_error = Some(message);
    (SwitchResult::MountFailed { rolled_back: false, error: env.mount_error.clone() }, state)
}

/// The mount table's states as the protocol steps through its operations:
/// which backends hold the share's single mount point at each instant, from
/// the initial state to the final one.
pub open spec fn spec_switch_trace(
    from: Backend,
    to: Backend,
    force: bool,
    env: SwitchEnv,
) -> Seq<Set<Backend>> {
    let s0: Set<Backend> = if env.from_mounted {
        set![from]
    } else {
        Set::empty()
    };
    let cleared = Set::<Backend>::empty();
    if spec_switch_busy(force, env) {
        seq![s0]
    } else if spec_switch_unmount_failed(force, env) {
        seq![s0]
    } else if env.mount_ok {
        seq![s0, cleared, set![to]]
    } else if env.retry_ok {
        seq![s0, cleared, cleared, set![to]]
    } else if env.rollback_ok {
        seq![s0, cleared, cleared, cleared, set![from]]
    } else {
        seq![s0, cleared, cleared, cleared, cleared]
    }
}

/// Single-mount invariant: at every instant of the switch protocol, at most
/// one backend is mounted, whatever the outcomes of the individual
/// operations were. A mount is only ever attempted after the mount point has
/// been cleared, and the rollback only after the target mount failed.
pub proof fn lemma_switch_single_mount(from: Backend, to: Backend, force: bool, env: SwitchEnv)
    ensures
        forall|i: int|
            0 <= i < spec_switch_trace(from, to, force, env).len() ==> (
            #[trigger] spec_switch_trace(from, to, force, env)[i]).len() <= 1,
{
    let empty = Set::<Backend>::empty();
    assert(empty.len() == 0);
    assert(set![from].len() == 1);
    assert(set![to].len() == 1);
    let t = spec_switch_trace(from, to, force, env);
    assert forall|i: int| 0 <= i < t.len() implies (#[trigger] t[i]).len() <= 1 by {
        assert(t[i] == empty || t[i] == set![from] || t[i] == set![to]);
    }
}

/// The final mount-table state of the trace agrees with the state the
/// protocol commits: the target backend after a successful switch, the
/// previous backend after a rollback, and nothing when the rollback failed
/// too.
pub proof fn lemma_switch_trace_outcome(from: Backend, to: Backend, force: bool, env: SwitchEnv)
    ensures
        spec_switch_reaches_mount(force, env) && (env.mount_ok || env.retry_ok)
            ==> spec_switch_trace(from, to, force, env).last() == set![to],
        spec_switch_reaches_mount(force, env) && !env.mount_ok && !env.retry_ok && env.rollback_ok
            ==> spec_switch_trace(from, to, force, env).last() == set![from],
        spec_switch_reaches_mount(force, env) && !env.mount_ok && !env.retry_ok
            && !env.rollback_ok ==> spec_switch_trace(from, to, force, env).last() == Set::<
            Backend,
        >::empty(),
{
}

/// The backends holding the share's single mount point, as one cycle's
/// observations report them.
pub open spec fn obs_mounted_set(tb: BackendObservation, fb: BackendObservation) -> Set<Backend> {
    let with_tb: Set<Backend> = if tb.mounted {
        set![Backend::Tb]
    } else {
        Set::empty()
    };
    if fb.mounted {
        with_tb.insert(Backend::Fallback)
    } else {
        with_tb
    }
}

/// The mount-table states one whole reconcile cycle passes through, from the
/// observed table to the last operation of whichever action the cycle
/// decides: nothing for the do-nothing and bookkeeping actions, one mount
/// for an initial mount or a remount of the active backend, and the switch
/// protocol's own trace for a failover or an auto-failback. The stale
/// cleanup that precedes the observation only ever unmounts, so it cannot
/// raise the count.
pub open spec fn spec_cycle_mount_trace(
    tb: BackendObservation,
    fb: BackendObservation,
    action: ShareAction,
    env: SwitchEnv,
) -> Seq<Set<Backend>> {
    let m0 = obs_mounted_set(tb, fb);
    match action {
        ShareAction::InitialMount { backend } => seq![m0, m0.insert(backend)],
        ShareAction::RemountActive { backend } => seq![m0, m0.insert(backend)],
        ShareAction::Failover { from, to } => seq![m0] + spec_switch_trace(from, to, false, env),
        ShareAction::AutoFailback => seq![m0] + spec_switch_trace(
            Backend::Fallback,
            Backend::Tb,
            false,
            env,
        ),
        _ => seq![m0],
    }
}

/// Single-mount invariant for a whole reconcile cycle: whatever action the
/// cycle decides and however every operation turns out, at no instant are
/// both backends mounted. The observations must attribute the single mount
/// point consistently — only the remembered active backend can hold it —
/// which is how the executor builds them.
pub proof fn lemma_cycle_single_mount(
    active: Option<Backend>,
    tb: BackendObservation,
    fb: BackendObservation,
    auto_failback: bool,
    since: Option<u64>,
    window: u64,
    now: u64,
    env: SwitchEnv,
)
    requires
        tb.mounted ==> active == Some(Backend::Tb),
        fb.mounted ==> active == Some(Backend::Fallback),
    ensures
        ({
            let action = spec_plan_share_action(active, tb, fb, auto_failback, since, window, now);
            let trace = spec_cycle_mount_trace(tb, fb, action, env);
            forall|i: int| 0 <= i < trace.len() ==> (#[trigger] trace[i]).len() <= 1
        }),
{
    let empty = Set::<Backend>::empty();
    assert(empty.len() == 0);
    assert(set![Backend::Tb].len() == 1);
    assert(set![Backend::Fallback].len() == 1);
    let m0 = obs_mounted_set(tb, fb);
    assert(m0.len() <= 1) by {
        if tb.mounted && fb.mounted {
            assert(active == Some(Backend::Tb) && active == Some(Backend::Fallback));
        }
        assert(m0 == empty || m0 == set![Backend::Tb] || m0 == set![Backend::Fallback]);
    }
    let action = spec_plan_share_action(active, tb, fb, auto_failback, since, window, now);
    let trace = spec_cycle_mount_trace(tb, fb, action, env);
    match action {
        ShareAction::InitialMount { backend } => {
            // an initial mount is decided only with no active backend, so
            // nothing is attributed as mounted and the table is empty
            assert(active is None);
            assert(!tb.mounted && !fb.mounted);
            assert(m0 =~= empty);
            assert(m0.insert(backend) =~= set![backend]);
            assert(set![backend].len() == 1);
            assert(forall|i: int| 0 <= i < trace.len() ==> (#[trigger] trace[i]).len() <= 1);
        },
        ShareAction::RemountActive { backend } => {
            // a remount is decided only while the active backend's mount is
            // gone, and only the active backend can be attributed a mount
            crate::engine::lemma_remount_only_when_unmounted(
                active,
                tb,
                fb,
                auto_failback,
                since,
                window,
                now,
            );
            assert(!tb.mounted && !fb.mounted);
            assert(m0 =~= empty);
            assert(m0.insert(backend) =~= set![backend]);
            assert(set![backend].len() == 1);
            assert(forall|i: int| 0 <= i < trace.len() ==> (#[trigger] trace[i]).len() <= 1);
        },
        ShareAction::Failover { from, to } => {
            lemma_switch_single_mount(from, to, false, env);
            let st = spec_switch_trace(from, to, false, env);
            assert forall|i: int| 0 <= i < trace.len() implies (#[trigger] trace[i]).len()
                <= 1 by {
                if i > 0 {
                    assert(trace[i] == st[i - 1]);
                }
            }
        },
        ShareAction::AutoFailback => {
            lemma_switch_single_mount(Backend::Fallback, Backend::Tb, false, env);
            let st = spec_switch_trace(Backend::Fallback, Backend::Tb, false, env);
            assert forall|i: int| 0 <= i < trace.len() implies (#[trigger] trace[i]).len()
                <= 1 by {
                if i > 0 {
                    assert(trace[i] == st[i - 1]);
                }
            }
        },
        _ => {
            assert(forall|i: int| 0 <= i < trace.len() ==> (#[trigger] trace[i]).len() <= 1);
        },
    }
}

} // verus!
