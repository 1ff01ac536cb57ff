use mountaineer::engine::ShareRuntimeState;
use mountaineer::switching::{switch_protocol, SwitchEnv, SwitchResult};
use mountaineer::Backend;

fn active_entry(backend: Backend) -> ShareRuntimeState {
    let mut e = ShareRuntimeState::default();
    e.active_backend = Some(backend);
    e.last_switch_at = Some(10);
    e
}

fn env_all_ok() -> SwitchEnv {
    SwitchEnv {
        from_mounted: true,
        open_handles: false,
        unmount_ok: true,
        unmount_error: String::new(),
        mount_ok: true,
        retry_ok: false,
        mount_error: String::new(),
        rollback_ok: false,
    }
}

#[test]
fn switch_success_commits_target_backend() {
    let e = active_entry(Backend::Tb);
    let (result, committed) = switch_protocol(&e, Backend::Tb, Backend::Fallback, false, &env_all_ok(), 99);
    assert_eq!(result, SwitchResult::Success);
    assert_eq!(committed.active_backend, Some(Backend::Fallback));
    assert_eq!(committed.last_switch_at, Some(99));
    assert!(!committed.tb_recovery_pending);
    assert_eq!(committed.last_error, None);
}

#[test]
fn switch_succeeds_on_retry() {
    let e = active_entry(Backend::Fallback);
    let mut env = env_all_ok();
    env.mount_ok = false;
    env.retry_ok = true;
    let (result, committed) = switch_protocol(&e, Backend::Fallback, Backend::Tb, false, &env, 77);
    assert_eq!(result, SwitchResult::Success);
    assert_eq!(committed.active_backend, Some(Backend::Tb));
}

#[test]
fn switch_blocked_by_open_files() {
    // Open handles on the current mount and no force: the switch reports
    // BusyOpenFiles and the runtime state is exactly what it was.
    let e = active_entry(Backend::Tb);
    let mut env = env_all_ok();
    env.open_handles = true;
    let (result, state) = switch_protocol(&e, Backend::Tb, Backend::Fallback, false, &env, 99);
    assert_eq!(result, SwitchResult::BusyOpenFiles);
    assert_eq!(state, e);
    assert_eq!(state.active_backend, Some(Backend::Tb));
    assert_eq!(state.last_error, None);
}

#[test]
fn switch_force_bypasses_idle_check() {
    let e = active_entry(Backend::Tb);
    let mut env = env_all_ok();
    env.open_handles = true;
    let (result, committed) = switch_protocol(&e, Backend::Tb, Backend::Fallback, true, &env, 99);
    assert_eq!(result, SwitchResult::Success);
    assert_eq!(committed.active_backend, Some(Backend::Fallback));
}

#[test]
fn switch_unmount_failure_keeps_state() {
    let e = active_entry(Backend::Tb);
    let mut env = env_all_ok();
    env.unmount_ok = false;
    env.unmount_error = "device busy".to_string();
    let (result, state) = switch_protocol(&e, Backend::Tb, Backend::Fallback, false, &env, 99);
    assert_eq!(result, SwitchResult::UnmountFailed("device busy".to_string()));
    assert_eq!(state, e);
}

#[test]
fn switch_rollback_success_keeps_active_backend() {
    // The target mount and its retry fail, the old backend remounts: the
    // active backend is unchanged and the error is recorded.
    let e = active_entry(Backend::Tb);
    let mut env = env_all_ok();
    env.mount_ok = false;
    env.retry_ok = false;
    env.mount_error = "no route to host".to_string();
    env.rollback_ok = true;
    let (result, state) = switch_protocol(&e, Backend::Tb, Backend::Fallback, false, &env, 99);
    assert_eq!(
        result,
        SwitchResult::MountFailed {
            rolled_back: true,
            error: "no route to host".to_string()
        }
    );
    assert_eq!(state.active_backend, Some(Backend::Tb));
    assert_eq!(state.last_error, Some("no route to host".to_string()));
}

#[test]
fn switch_rollback_failure_clears_active_backend() {
    // The rollback fails too: no backend is active and the error reflects
    // both failures.
    let e = active_entry(Backend::Tb);
    let mut env = env_all_ok();
    env.mount_ok = false;
    env.retry_ok = false;
    env.mount_error = "no route to host".to_string();
    env.rollback_ok = false;
    let (result, state) = switch_protocol(&e, Backend::Tb, Backend::Fallback, false, &env, 99);
    assert_eq!(
        result,
        SwitchResult::MountFailed {
            rolled_back: false,
            error: "no route to host".to_string()
        }
    );
    assert_eq!(state.active_backend, None);
    let msg = state.last_error.expect("a compound error is recorded");
    assert!(msg.contains("no route to host"));
    assert!(msg.contains("rollback"));
}

#[test]
fn switch_not_mounted_skips_unmount_outcome() {
    // Nothing was mounted to begin with: the unmount outcome is irrelevant
    // and the mount proceeds.
    let e = ShareRuntimeState::default();
    let mut env = env_all_ok();
    env.from_mounted = false;
    env.unmount_ok = false;
    env.open_handles = true;
    let (result, committed) = switch_protocol(&e, Backend::Fallback, Backend::Tb, false, &env, 5);
    assert_eq!(result, SwitchResult::Success);
    assert_eq!(committed.active_backend, Some(Backend::Tb));
}
