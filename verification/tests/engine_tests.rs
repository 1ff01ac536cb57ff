use mountaineer::engine::{
    apply_initial_mount_success, choose_desired_backend, choose_desired_backend_single_mount,
    reconcile_entry, to_lowercase, update_tb_windows, BackendObservation, RuntimeState,
    ShareAction, ShareRuntimeState,
};
use mountaineer::status::{is_benign_mount_collision, plan_stale_cleanup, StaleCleanup};
use mountaineer::Backend;

fn fresh_entry() -> ShareRuntimeState {
    ShareRuntimeState::default()
}

fn obs(reachable: bool, mounted: bool, alive: bool) -> BackendObservation {
    BackendObservation {
        reachable,
        mounted,
        alive,
    }
}

// --- Desired-backend table ---

#[test]
fn desired_backend_prefers_fallback_intent_when_tb_drops() {
    let now: u64 = 1_700_000_000;
    let desired = choose_desired_backend(Some(Backend::Tb), false, false, true, None, 20, now);
    assert_eq!(desired, Some(Backend::Fallback));
}

#[test]
fn desired_backend_stays_fallback_intent_when_both_down() {
    let now: u64 = 1_700_000_000;
    let desired =
        choose_desired_backend(Some(Backend::Fallback), false, false, true, None, 20, now);
    assert_eq!(desired, Some(Backend::Fallback));
}

#[test]
fn desired_backend_failbacks_after_stability_window() {
    let now: u64 = 1_700_000_000;
    let healthy_since = now - 31;
    let desired = choose_desired_backend(
        Some(Backend::Fallback),
        true,
        true,
        true,
        Some(healthy_since),
        30,
        now,
    );
    assert_eq!(desired, Some(Backend::Tb));
}

#[test]
fn desired_backend_failbacks_when_tb_reachable_window_elapsed() {
    let now: u64 = 1_700_000_000;
    let reachable_since = now - 45;
    let desired = choose_desired_backend(
        Some(Backend::Fallback),
        true,
        true,
        true,
        Some(reachable_since),
        30,
        now,
    );
    assert_eq!(desired, Some(Backend::Tb));
}

#[test]
fn desired_backend_exhaustive_no_active() {
    let now: u64 = 100;
    for &auto in &[false, true] {
        for &stable in &[None, Some(50u64)] {
            assert_eq!(
                choose_desired_backend_single_mount(None, true, true, auto, stable, 30, now),
                Some(Backend::Tb)
            );
            assert_eq!(
                choose_desired_backend_single_mount(None, true, false, auto, stable, 30, now),
                Some(Backend::Tb)
            );
            assert_eq!(
                choose_desired_backend_single_mount(None, false, true, auto, stable, 30, now),
                Some(Backend::Fallback)
            );
            assert_eq!(
                choose_desired_backend_single_mount(None, false, false, auto, stable, 30, now),
                None
            );
        }
    }
}

#[test]
fn desired_backend_no_failback_without_window() {
    let now: u64 = 1_000;
    // auto_failback on but the window has not elapsed yet
    let desired = choose_desired_backend_single_mount(
        Some(Backend::Fallback),
        true,
        true,
        true,
        Some(now - 10),
        30,
        now,
    );
    assert_eq!(desired, Some(Backend::Fallback));
    // auto_failback off: never failback automatically
    let desired = choose_desired_backend_single_mount(
        Some(Backend::Fallback),
        true,
        true,
        false,
        Some(now - 1_000),
        30,
        now,
    );
    assert_eq!(desired, Some(Backend::Fallback));
}

// --- Benign mount collision ---

#[test]
fn benign_mount_collision_detection_matches_expected_patterns() {
    let benign = "mount_smbfs failed (exit 64): //u@macmini.local/CORE: File exists; osascript fallback mounted no detectable share path";
    assert!(is_benign_mount_collision(benign));

    let fatal = "mount_smbfs failed (exit 64): permission denied";
    assert!(!is_benign_mount_collision(fatal));
}

// --- Stability windows ---

#[test]
fn reachable_window_opens_once_and_holds() {
    let e0 = fresh_entry();
    let e1 = update_tb_windows(&e0, true, false, 100);
    assert_eq!(e1.tb_reachable_since, Some(100));
    assert_eq!(e1.tb_healthy_since, None);
    // a later cycle must not move the window start forward
    let e2 = update_tb_windows(&e1, true, true, 150);
    assert_eq!(e2.tb_reachable_since, Some(100));
    assert_eq!(e2.tb_healthy_since, Some(150));
}

#[test]
fn reachable_window_clears_on_bad_probe() {
    let e0 = fresh_entry();
    let mut e1 = update_tb_windows(&e0, true, true, 100);
    e1.tb_recovery_pending = true;
    let e2 = update_tb_windows(&e1, false, false, 200);
    assert_eq!(e2.tb_reachable_since, None);
    assert_eq!(e2.tb_healthy_since, None);
    assert!(!e2.tb_recovery_pending);
    // the window reopens at the later time only after it was cleared
    let e3 = update_tb_windows(&e2, true, false, 300);
    assert_eq!(e3.tb_reachable_since, Some(300));
}

// --- Reconcile state idempotence ---

#[test]
fn reconcile_twice_gives_identical_state() {
    let mut e = fresh_entry();
    e.active_backend = Some(Backend::Fallback);
    let tb = obs(true, false, false);
    let fb = obs(true, true, true);
    let now: u64 = 500;
    let (e1, a1) = reconcile_entry(&e, tb, fb, false, 30, now);
    let (e2, a2) = reconcile_entry(&e1, tb, fb, false, 30, now);
    assert_eq!(e1, e2);
    assert_eq!(a1, a2);
    assert_eq!(a1, ShareAction::SetRecoveryPending);
    assert!(e1.tb_recovery_pending);
}

// --- Scenarios ---

#[test]
fn initial_mount_primary_reachable() {
    // One share, both backends reachable, empty runtime state: the first
    // cycle decides an initial mount of the primary, and committing the
    // mount sets the active backend and the switch time.
    let now: u64 = 1_000;
    let e0 = fresh_entry();
    let tb = obs(true, false, false);
    let fb = obs(true, false, false);
    let (e1, action) = reconcile_entry(&e0, tb, fb, false, 30, now);
    assert_eq!(
        action,
        ShareAction::InitialMount {
            backend: Backend::Tb
        }
    );
    let committed = apply_initial_mount_success(&e1, Backend::Tb, now);
    assert_eq!(committed.active_backend, Some(Backend::Tb));
    assert_eq!(committed.last_switch_at, Some(now));
}

#[test]
fn primary_drop_triggers_failover_to_fallback() {
    // Continuing from an active primary: the primary becomes unreachable
    // while the fallback stays reachable, so the cycle decides a failover.
    let now: u64 = 2_000;
    let mut e = fresh_entry();
    e.active_backend = Some(Backend::Tb);
    e.last_switch_at = Some(1_000);
    let tb = obs(false, false, false);
    let fb = obs(true, false, false);
    let (e1, action) = reconcile_entry(&e, tb, fb, false, 30, now);
    assert_eq!(
        action,
        ShareAction::Failover {
            from: Backend::Tb,
            to: Backend::Fallback
        }
    );
    // the primary's windows are cleared by the bad probe
    assert_eq!(e1.tb_reachable_since, None);
}

#[test]
fn primary_return_sets_recovery_pending_without_auto_failback() {
    // Running on the fallback, the primary comes back, auto-failback is
    // off: no switch, only the pending-recovery flag.
    let now: u64 = 3_000;
    let mut e = fresh_entry();
    e.active_backend = Some(Backend::Fallback);
    let tb = obs(true, false, false);
    let fb = obs(true, true, true);
    let (e1, action) = reconcile_entry(&e, tb, fb, false, 30, now);
    assert_eq!(action, ShareAction::SetRecoveryPending);
    assert_eq!(e1.active_backend, Some(Backend::Fallback));
    assert!(e1.tb_recovery_pending);
}

#[test]
fn primary_stable_thirty_seconds_auto_failback() {
    // Same as the pending case but with auto-failback on and the primary
    // stable for longer than the window: the cycle decides the switch back.
    let t0: u64 = 3_000;
    let mut e = fresh_entry();
    e.active_backend = Some(Backend::Fallback);
    let tb = obs(true, false, false);
    let fb = obs(true, true, true);
    // primary observed reachable at t0: the window opens
    let (e1, _) = reconcile_entry(&e, tb, fb, true, 30, t0);
    assert_eq!(e1.tb_reachable_since, Some(t0));
    // 31 seconds later the window has elapsed
    let (_, action) = reconcile_entry(&e1, tb, fb, true, 30, t0 + 31);
    assert_eq!(action, ShareAction::AutoFailback);
}

#[test]
fn stale_mount_is_cleared_and_remounted() {
    // mounted but not alive: the mount is stale and is unmounted, gracefully
    // for the active backend
    assert_eq!(plan_stale_cleanup(true, false, true), StaleCleanup::GracefulUnmount);
    assert_eq!(plan_stale_cleanup(true, false, false), StaleCleanup::ForcedUnmount);
    assert_eq!(plan_stale_cleanup(true, true, true), StaleCleanup::NotStale);
    assert_eq!(plan_stale_cleanup(false, false, true), StaleCleanup::NotStale);

    let mut e = fresh_entry();
    e.active_backend = Some(Backend::Tb);
    // after the cleanup the mount is gone; a reachable active backend is
    // mounted again in the same cycle and stays active
    let (e1, action) = reconcile_entry(&e, obs(true, false, false), obs(false, false, false), false, 30, 100);
    assert_eq!(
        action,
        ShareAction::RemountActive {
            backend: Backend::Tb
        }
    );
    assert_eq!(e1.active_backend, Some(Backend::Tb));
    // an unreachable active backend with no reachable other side loses its
    // active standing: nothing is mounted, and the state says so
    let (e2, action2) = reconcile_entry(&e, obs(false, false, false), obs(false, false, false), false, 30, 100);
    assert_eq!(action2, ShareAction::ClearActive);
    assert_eq!(e2.active_backend, None);
    // with the other side reachable the share fails over instead
    let (_, action3) = reconcile_entry(&e, obs(false, false, false), obs(true, false, false), false, 30, 100);
    assert_eq!(
        action3,
        ShareAction::Failover {
            from: Backend::Tb,
            to: Backend::Fallback
        }
    );
    // but a live mount is never given up over transient probe failures
    let (e4, action4) = reconcile_entry(&e, obs(false, true, true), obs(false, false, false), false, 30, 100);
    assert_eq!(action4, ShareAction::Noop);
    assert_eq!(e4.active_backend, Some(Backend::Tb));
}

#[test]
fn clearing_the_active_backend_settles_in_one_step() {
    // the second reconcile after a clear has nothing left to do and the
    // state stays put
    let mut e = fresh_entry();
    e.active_backend = Some(Backend::Fallback);
    let tb = obs(false, false, false);
    let fb = obs(false, false, false);
    let (e1, a1) = reconcile_entry(&e, tb, fb, false, 30, 50);
    assert_eq!(a1, ShareAction::ClearActive);
    assert_eq!(e1.active_backend, None);
    let (e2, a2) = reconcile_entry(&e1, tb, fb, false, 30, 50);
    assert_eq!(a2, ShareAction::Noop);
    assert_eq!(e2, e1);
}

// --- Runtime state store ---

#[test]
fn runtime_state_stores_by_lowercased_name() {
    let mut state = RuntimeState::new();
    let mut entry = ShareRuntimeState::default();
    entry.active_backend = Some(Backend::Tb);
    entry.last_switch_at = Some(42);
    state.store("CORE", entry.clone());
    assert_eq!(state.lookup("core"), entry);
    assert_eq!(state.lookup("Core"), entry);
    // an unknown share reads as the default entry
    assert_eq!(state.lookup("other"), ShareRuntimeState::default());
    // a second store replaces the entry instead of shadowing it
    let mut entry2 = entry.clone();
    entry2.active_backend = Some(Backend::Fallback);
    state.store("core", entry2.clone());
    assert_eq!(state.lookup("CORE"), entry2);
    assert_eq!(state.shares.len(), 1);
}

#[test]
fn to_lowercase_folds_ascii() {
    assert_eq!(to_lowercase("CoRe-01"), "core-01");
    assert_eq!(to_lowercase(""), "");
    assert_eq!(to_lowercase("already"), "already");
}
