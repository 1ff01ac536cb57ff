//! Status assembly and the small per-backend decisions a reconcile cycle
//! makes: how a probe's observations become a backend status, when a stale
//! mount must be cleared, when a mount attempt is due, how a mount failure
//! is classified, and how alias health is judged.

use vstd::prelude::*;

use crate::config::AliasConfig;
use crate::engine::{clone_opt_string, ShareRuntimeState};
use crate::strings::{
    contains_ignore_ascii_case, contains_sub, lower_seq, str_eq,
};
use crate::Backend;

verus! {

/// The ephemeral status of one backend, assembled from this cycle's
/// observations.
#[derive(Debug, Clone, PartialEq)]
pub struct BackendStatus {
    pub host: String,
    pub mount_point: String,
    pub reachable: bool,
    pub mounted: bool,
    pub alive: bool,
    pub ready: bool,
    pub last_error: Option<String>,
}

/// The published snapshot for one share.
#[derive(Debug, Clone, PartialEq)]
pub struct ShareStatus {
    pub name: String,
    pub stable_path: String,
    pub active_backend: Option<Backend>,
    pub desired_backend: Option<Backend>,
    pub tb: BackendStatus,
    pub fallback: BackendStatus,
    pub last_switch_at: Option<u64>,
    pub last_error: Option<String>,
    pub tb_recovery_pending: bool,
}

/// A directory entry published by the folder listing.
#[derive(Debug, Clone)]
pub struct FolderEntry {
    pub name: String,
    pub path: String,
}

/// Assemble a backend's status from what the probe observed. A backend is
/// ready exactly when it is reachable, mounted and alive.
pub fn probe_backend(
    host: String,
    mount_point: String,
    reachable: bool,
    mounted: bool,
    alive: bool,
    last_error: Option<String>,
) -> (r: BackendStatus)
    ensures
        r.host == host,
        r.mount_point == mount_point,
        r.reachable == reachable,
        r.mounted == mounted,
        r.alive == alive,
        r.ready == (reachable && mounted && alive),
        r.last_error == last_error,
{
    let ready = reachable && mounted && alive;
    BackendStatus { host, mount_point, reachable, mounted, alive, ready, last_error }
}

/// The host a backend connects through.
pub fn backend_host<'a>(share: &'a crate::config::ShareConfig, backend: Backend) -> (r: &'a str)
    ensures
        backend is Tb ==> r@ == share.thunderbolt_host@,
        backend is Fallback ==> r@ == share.fallback_host@,
{
    match backend {
        Backend::Tb => share.thunderbolt_host.as_str(),
        Backend::Fallback => share.fallback_host.as_str(),
    }
}

/// Whether the named backend is ready, per the two statuses.
pub fn backend_ready(desired: Backend, tb: &BackendStatus, fb: &BackendStatus) -> (r: bool)
    ensures
        desired is Tb ==> r == tb.ready,
        desired is Fallback ==> r == fb.ready,
{
    match desired {
        Backend::Tb => tb.ready,
        Backend::Fallback => fb.ready,
    }
}

/// How a stale mount is cleared: a mount that is present but not alive is
/// unmounted, gracefully when it belongs to the active backend and forcedly
/// otherwise; a live or absent mount needs nothing.
#[derive(Debug, Clone, Copy, PartialEq, Eq, Structural)]
pub enum StaleCleanup {
    NotStale,
    GracefulUnmount,
    ForcedUnmount,
}

pub fn plan_stale_cleanup(mounted: bool, alive: bool, is_active_backend: bool) -> (r: StaleCleanup)
    ensures
        !(mounted && !alive) ==> r is NotStale,
        mounted && !alive && is_active_backend ==> r is GracefulUnmount,
        mounted && !alive && !is_active_backend ==> r is ForcedUnmount,
{
    if mounted && !alive {
        if is_active_backend {
            StaleCleanup::GracefulUnmount
        } else {
            StaleCleanup::ForcedUnmount
        }
    } else {
        StaleCleanup::NotStale
    }
}

/// Whether a mount failure message is the benign collision with the OS's own
/// mount bookkeeping: the message reports "file exists" together with one of
/// the known secondary signals. Such a failure is not recorded as an error.
pub open spec fn spec_is_benign_mount_collision(message: Seq<char>) -> bool {
    contains_sub(lower_seq(message), lower_seq("file exists"@)) && (contains_sub(
        lower_seq(message),
        lower_seq("no detectable share path"@),
    ) || contains_sub(lower_seq(message), lower_seq("an error of type -5014"@)) || contains_sub(
        lower_seq(message),
        lower_seq("execution error"@),
    ))
}

pub fn is_benign_mount_collision(message: &str) -> (r: bool)
    ensures
        r == spec_is_benign_mount_collision(message@),
{
    contains_ignore_ascii_case(message, "file exists") && (contains_ignore_ascii_case(
        message,
        "no detectable share path",
    ) || contains_ignore_ascii_case(message, "an error of type -5014")
        || contains_ignore_ascii_case(message, "execution error"))
}

/// Classify a mount failure for the status record: a benign collision is
/// dropped, anything else becomes `<share> <backend label> mount failed:
/// <message>`.
pub fn mount_failure_error(share_name: &str, backend: Backend, message: &str) -> (r: Option<
    String,
>)
    ensures
        spec_is_benign_mount_collision(message@) ==> r is None,
        !spec_is_benign_mount_collision(message@) ==> (r matches Some(e) && e@ == share_name@
            + " "@ + (if backend is Tb {
            "tb"@
        } else {
            "fallback"@
        }) + " mount failed: "@ + message@),
{
    if is_benign_mount_collision(message) {
        return None;
    }
    let mut s = share_name.to_owned();
    s.append(" ");
    s.append(backend.short_label());
    s.append(" mount failed: ");
    s.append(message);
    Some(s)
}

/// Which backend a resolved stable-symlink target names: the one whose mount
/// path equals the target, the primary checked first. Callers hand in the
/// canonical spelling of both the target and the mount paths, so a
/// differently spelled route to the same place still matches; resolving
/// against the filesystem happens outside this crate.
pub fn detect_active_backend(
    link_target: Option<&String>,
    tb_target: &str,
    fb_target: &str,
) -> (r: Option<Backend>)
    ensures
        link_target is None ==> r is None,
        link_target matches Some(t) && t@ == tb_target@ ==> r == Some(Backend::Tb),
        link_target matches Some(t) && t@ != tb_target@ && t@ == fb_target@ ==> r == Some(
            Backend::Fallback,
        ),
        link_target matches Some(t) && t@ != tb_target@ && t@ != fb_target@ ==> r is None,
{
    match link_target {
        None => None,
        Some(t) => {
            if str_eq(t.as_str(), tb_target) {
                Some(Backend::Tb)
            } else if str_eq(t.as_str(), fb_target) {
                Some(Backend::Fallback)
            } else {
                None
            }
        },
    }
}

/// Whether two path strings are equal, character for character. Resolving
/// paths against the filesystem (canonicalisation) happens outside this
/// crate; callers hand in already-resolved paths.
pub fn path_eq(a: &str, b: &str) -> (r: bool)
    ensures
        r == (a@ == b@),
{
    str_eq(a, b)
}

/// Assemble the published snapshot for a share from its runtime entry and
/// the two backend statuses.
pub fn build_share_status(
    name: String,
    stable_path: String,
    entry: &ShareRuntimeState,
    desired_backend: Option<Backend>,
    tb: BackendStatus,
    fallback: BackendStatus,
    cycle_error: Option<String>,
) -> (r: ShareStatus)
    ensures
        r.name == name,
        r.stable_path == stable_path,
        r.active_backend == entry.active_backend,
        r.desired_backend == desired_backend,
        r.tb == tb,
        r.fallback == fallback,
        r.last_switch_at == entry.last_switch_at,
        r.tb_recovery_pending == entry.tb_recovery_pending,
        cycle_error is Some ==> r.last_error == cycle_error,
        cycle_error is None ==> r.last_error == entry.last_error,
{
    let last_error = match cycle_error {
        Some(e) => Some(e),
        None => clone_opt_string(&entry.last_error),
    };
    ShareStatus {
        name,
        stable_path,
        active_backend: entry.active_backend,
        desired_backend,
        tb,
        fallback,
        last_switch_at: entry.last_switch_at,
        last_error,
        tb_recovery_pending: entry.tb_recovery_pending,
    }
}

/// How one mount point is unmounted during an unmount pass.
#[derive(Debug, Clone, Copy, PartialEq, Eq, Structural)]
pub enum UnmountMethod {
    /// Nothing is mounted there.
    NotMounted,
    /// Open handles were found and force is off: leave it alone.
    Busy,
    /// The active backend's mount: try the graceful path.
    Graceful,
    /// Any other mount: force it off.
    Forced,
}

/// Decide how to unmount one mount point, given whether it is mounted,
/// whether open handles were found, and whether it belongs to the share's
/// active backend.
pub fn plan_unmount(mounted: bool, open_handles: bool, is_active: bool) -> (r: UnmountMethod)
    ensures
        !mounted ==> r is NotMounted,
        mounted && open_handles ==> r is Busy,
        mounted && !open_handles && is_active ==> r is Graceful,
        mounted && !open_handles && !is_active ==> r is Forced,
{
    if !mounted {
        UnmountMethod::NotMounted
    } else if open_handles {
        UnmountMethod::Busy
    } else if is_active {
        UnmountMethod::Graceful
    } else {
        UnmountMethod::Forced
    }
}

/// The record an unmount pass publishes for one mount point.
#[derive(Debug, Clone, PartialEq)]
pub struct UnmountResult {
    pub share: String,
    pub backend: Backend,
    pub mount_point: String,
    pub attempted: bool,
    pub unmounted: bool,
    pub busy: bool,
    pub message: Option<String>,
}

/// Assemble the record for one unmount: what was planned, whether the
/// executor reported success, and what it said.
pub fn unmount_result(
    share: String,
    backend: Backend,
    mount_point: String,
    method: UnmountMethod,
    unmount_ok: bool,
    message: Option<String>,
) -> (r: UnmountResult)
    ensures
        r.share == share,
        r.backend == backend,
        r.mount_point == mount_point,
        r.attempted == !(method is NotMounted),
        r.busy == (method is Busy),
        r.unmounted == ((method is Graceful || method is Forced) && unmount_ok),
        r.message == message,
{
    let attempted = !matches!(method, UnmountMethod::NotMounted);
    let busy = matches!(method, UnmountMethod::Busy);
    let unmounted = (matches!(method, UnmountMethod::Graceful) || matches!(
        method,
        UnmountMethod::Forced,
    )) && unmount_ok;
    UnmountResult { share, backend, mount_point, attempted, unmounted, busy, message }
}

/// After an unmount pass over a share's mount points, whether anything of
/// the share stays mounted: a deferred (busy) mount or an attempted unmount
/// that failed. While it does, the share keeps its runtime entry; only a
/// share with nothing left mounted loses its active backend.
pub fn share_still_mounted(results: &Vec<UnmountResult>) -> (r: bool)
    ensures
        r == exists|i: int|
            0 <= i < results@.len() && ((#[trigger] results@[i]).busy || (results@[i].attempted
                && !results@[i].unmounted)),
{
    let n = results.len();
    let mut i: usize = 0;
    while i < n
        invariant
            n == results@.len(),
            i <= n,
            forall|j: int|
                0 <= j < i ==> !((#[trigger] results@[j]).busy || (results@[j].attempted
                    && !results@[j].unmounted)),
        decreases n - i,
    {
        if results[i].busy || (results[i].attempted && !results[i].unmounted) {
            return true;
        }
        i += 1;
    }
    false
}

/// The health snapshot for one alias.
#[derive(Debug, Clone, PartialEq)]
pub struct AliasStatus {
    pub name: String,
    pub path: String,
    pub share: String,
    pub target_subpath: String,
    pub target: String,
    pub current_target: Option<String>,
    pub target_exists: bool,
    pub healthy: bool,
    pub message: Option<String>,
}

/// What one cycle observed about an alias symlink on disk.
#[derive(Debug, Clone)]
pub struct AliasObservation {
    /// The resolved target the alias symlink currently points at, when the
    /// path is a symlink at all.
    pub current_target: Option<String>,
    /// The intended target currently exists on disk.
    pub target_exists: bool,
    /// Why publishing the alias symlink failed, when it was attempted and
    /// did fail.
    pub publish_error: Option<String>,
}

/// An alias is healthy when its symlink resolves to exactly the intended
/// target and that target exists.
pub open spec fn spec_alias_healthy(
    current_target: Option<String>,
    target: Seq<char>,
    target_exists: bool,
) -> bool {
    match current_target {
        Some(ct) => ct@ == target && target_exists,
        None => false,
    }
}

/// Judge one alias from its declaration, its intended paths, and what was
/// observed on disk. The message reports the publish failure when there was
/// one, and otherwise says what is wrong when the alias is unhealthy.
pub fn inspect_alias(
    alias: &AliasConfig,
    path: String,
    target: String,
    obs: &AliasObservation,
) -> (r: AliasStatus)
    ensures
        r.name == alias.name,
        r.path == path,
        r.share == alias.share,
        r.target_subpath == alias.target_subpath,
        r.target == target,
        r.current_target == obs.current_target,
        r.target_exists == obs.target_exists,
        r.healthy == spec_alias_healthy(obs.current_target, target@, obs.target_exists),
        obs.publish_error is Some ==> r.message == obs.publish_error,
        obs.publish_error is None && r.healthy ==> r.message is None,
        obs.publish_error is None && !r.healthy && obs.current_target is None ==> (
        r.message matches Some(m) && m@ == "alias path is missing or not a symlink"@),
        obs.publish_error is None && !r.healthy && obs.current_target is Some
            && !obs.target_exists ==> (r.message matches Some(m) && m@
            == "alias target does not currently exist"@),
        obs.publish_error is None && !r.healthy && obs.current_target is Some && obs.target_exists
            ==> (r.message matches Some(m) && m@ == "alias points to an unexpected target"@),
{
    let healthy = match &obs.current_target {
        Some(ct) => str_eq(ct.as_str(), target.as_str()) && obs.target_exists,
        None => false,
    };
    let message: Option<String> = if obs.publish_error.is_some() {
        clone_opt_string(&obs.publish_error)
    } else if healthy {
        None
    } else if obs.current_target.is_none() {
        Some("alias path is missing or not a symlink".to_owned())
    } else if !obs.target_exists {
        Some("alias target does not currently exist".to_owned())
    } else {
        Some("alias points to an unexpected target".to_owned())
    };
    AliasStatus {
        name: alias.name.clone(),
        path,
        share: alias.share.clone(),
        target_subpath: alias.target_subpath.clone(),
        target,
        current_target: clone_opt_string(&obs.current_target),
        target_exists: obs.target_exists,
        healthy,
        message,
    }
}

} // verus!
