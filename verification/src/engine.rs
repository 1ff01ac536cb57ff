//! The per-share reconciliation engine.
//!
//! Everything here is a pure decision: the daemon's outer loop probes the
//! backends, reads the mount table, and hands the observations in as plain
//! values; these functions update the runtime state and say which action to
//! take. The mount, unmount and symlink operations themselves happen outside
//! this crate, and their outcomes come back in through
//! [`crate::switching::switch_protocol`] and the `apply_*` functions.

use vstd::prelude::*;
use vstd::pervasive::VecAdditionalExecFns;

use crate::strings::lower_seq;
use crate::Backend;

verus! {

/// The persisted per-share runtime state. Timestamps are seconds since the
/// Unix epoch.
#[derive(Debug, Clone, PartialEq)]
pub struct ShareRuntimeState {
    pub active_backend: Option<Backend>,
    pub last_switch_at: Option<u64>,
    pub tb_reachable_since: Option<u64>,
    pub tb_healthy_since: Option<u64>,
    pub last_error: Option<String>,
    /// The primary backend became available while running on the fallback;
    /// with `auto_failback` off the switch waits for user consent.
    pub tb_recovery_pending: bool,
}

/// The entry a share starts from before anything was observed.
pub open spec fn default_runtime_entry() -> ShareRuntimeState {
    ShareRuntimeState {
        active_backend: None,
        last_switch_at: None,
        tb_reachable_since: None,
        tb_healthy_since: None,
        last_error: None,
        tb_recovery_pending: false,
    }
}

impl Default for ShareRuntimeState {
    fn default() -> (r: ShareRuntimeState)
        ensures
            r == default_runtime_entry(),
    {
        ShareRuntimeState {
            active_backend: None,
            last_switch_at: None,
            tb_reachable_since: None,
            tb_healthy_since: None,
            last_error: None,
            tb_recovery_pending: false,
        }
    }
}

impl ShareRuntimeState {
    /// A value-equal copy.
    pub fn snapshot(&self) -> (r: ShareRuntimeState)
        ensures
            r == *self,
    {
        ShareRuntimeState {
            active_backend: self.active_backend,
            last_switch_at: self.last_switch_at,
            tb_reachable_since: self.tb_reachable_since,
            tb_healthy_since: self.tb_healthy_since,
            last_error: clone_opt_string(&self.last_error),
            tb_recovery_pending: self.tb_recovery_pending,
        }
    }
}

/// A value-equal copy of an optional string.
pub fn clone_opt_string(o: &Option<String>) -> (r: Option<String>)
    ensures
        r == *o,
{
    match o {
        Some(s) => Some(s.clone()),
        None => None,
    }
}

/// The persisted runtime state: one entry per share, keyed by the share name
/// lower-cased. Keys are unique.
#[derive(Debug, Clone, PartialEq)]
pub struct RuntimeState {
    pub shares: Vec<(String, ShareRuntimeState)>,
}

/// Linear lookup of a key in an association sequence: the first match wins.
pub open spec fn spec_assoc_lookup(
    s: Seq<(String, ShareRuntimeState)>,
    k: Seq<char>,
) -> Option<ShareRuntimeState>
    decreases s.len(),
{
    if s.len() == 0 {
        None
    } else if s[0].0@ == k {
        Some(s[0].1)
    } else {
        spec_assoc_lookup(s.drop_first(), k)
    }
}

impl RuntimeState {
    /// What this state stores under the given (already lower-cased) key.
    pub open spec fn spec_lookup(self, k: Seq<char>) -> Option<ShareRuntimeState> {
        spec_assoc_lookup(self.shares@, k)
    }

    pub fn new() -> (r: RuntimeState)
        ensures
            forall|k: Seq<char>| r.spec_lookup(k) is None,
    {
        let r = RuntimeState { shares: Vec::new() };
        proof {
            assert(forall|k: Seq<char>| r.spec_lookup(k) is None);
        }
        r
    }

    /// The entry for a share, or the default entry when none is stored yet.
    /// The share name is lower-cased to form the key.
    pub fn lookup(&self, share_name: &str) -> (r: ShareRuntimeState)
        ensures
            r == match self.spec_lookup(lower_seq(share_name@)) {
                Some(e) => e,
                None => default_runtime_entry(),
            },
    {
        let key = to_lowercase(share_name);
        let n = self.shares.len();
        proof {
            assert(self.shares@.subrange(0, n as int) =~= self.shares@);
        }
        let mut i: usize = 0;
        while i < n
            invariant
                n == self.shares@.len(),
                i <= n,
                key@ == lower_seq(share_name@),
                spec_assoc_lookup(self.shares@, key@) == spec_assoc_lookup(
                    self.shares@.subrange(i as int, n as int),
                    key@,
                ),
            decreases n - i,
        {
            proof {
                assert(self.shares@.subrange(i as int, n as int)[0] == self.shares@[i as int]);
                assert(self.shares@.subrange(i as int, n as int).drop_first() =~= self.shares@
                    .subrange(i as int + 1, n as int));
            }
            if crate::strings::str_eq(self.shares[i].0.as_str(), key.as_str()) {
                return self.shares[i].1.snapshot();
            }
            i += 1;
        }
        proof {
            assert(self.shares@.subrange(n as int, n as int) =~= Seq::<(
                String,
                ShareRuntimeState,
            )>::empty());
        }
        ShareRuntimeState::default()
    }

    /// Store the entry for a share under its lower-cased name, replacing any
    /// entry already stored for it.
    pub fn store(&mut self, share_name: &str, entry: ShareRuntimeState)
        ensures
            final(self).spec_lookup(lower_seq(share_name@)) == Some(entry),
            forall|k: Seq<char>|
                k != lower_seq(share_name@) ==> final(self).spec_lookup(k) == old(
                    self,
                ).spec_lookup(k),
    {
        let key = to_lowercase(share_name);
        let n = self.shares.len();
        let mut i: usize = 0;
        while i < n
            invariant
                n == self.shares@.len(),
                i <= n,
                key@ == lower_seq(share_name@),
                self.shares@ == old(self).shares@,
                forall|j: int| 0 <= j < i ==> #[trigger] self.shares@[j].0@ != key@,
            decreases n - i,
        {
            if crate::strings::str_eq(self.shares[i].0.as_str(), key.as_str()) {
                let ghost s_old = self.shares@;
                self.shares.set(i, (key, entry));
                proof {
                    lemma_assoc_update(s_old, self.shares@, i as int);
                }
                return;
            }
            i += 1;
        }
        let ghost s_old = self.shares@;
        self.shares.push((key, entry));
        proof {
            assert(self.shares@.drop_last() =~= s_old);
            lemma_assoc_push(s_old, self.shares@);
        }
    }
}

/// Updating the value at the first index whose key matches changes that key's
/// lookup result and no other.
proof fn lemma_assoc_update(
    s_old: Seq<(String, ShareRuntimeState)>,
    s_new: Seq<(String, ShareRuntimeState)>,
    i: int,
)
    requires
        0 <= i < s_old.len(),
        s_new == s_old.update(i, s_new[i]),
        s_new[i].0@ == s_old[i].0@,
        forall|j: int| 0 <= j < i ==> #[trigger] s_old[j].0@ != s_old[i].0@,
    ensures
        spec_assoc_lookup(s_new, s_old[i].0@) == Some(s_new[i].1),
        forall|k: Seq<char>|
            k != s_old[i].0@ ==> spec_assoc_lookup(s_new, k) == spec_assoc_lookup(s_old, k),
    decreases s_old.len(),
{
    let key = s_old[i].0@;
    if i == 0 {
        assert(s_new.drop_first() =~= s_old.drop_first());
        assert(spec_assoc_lookup(s_new, key) == Some(s_new[0].1));
        assert forall|k: Seq<char>| k != key implies spec_assoc_lookup(s_new, k)
            == spec_assoc_lookup(s_old, k) by {
            assert(spec_assoc_lookup(s_new, k) == spec_assoc_lookup(s_new.drop_first(), k));
        }
    } else {
        let t_old = s_old.drop_first();
        let t_new = s_new.drop_first();
        assert(t_new =~= t_old.update(i - 1, t_new[i - 1]));
        assert(t_new[i - 1] == s_new[i]);
        assert(t_old[i - 1] == s_old[i]);
        assert forall|j: int| 0 <= j < i - 1 implies #[trigger] t_old[j].0@ != t_old[i - 1].0@ by {
            assert(t_old[j] == s_old[j + 1]);
        }
        lemma_assoc_update(t_old, t_new, i - 1);
        assert(s_new[0] == s_old[0]);
        assert(s_old[0].0@ != key);
        assert(spec_assoc_lookup(s_new, key) == spec_assoc_lookup(t_new, key));
        assert forall|k: Seq<char>| k != key implies spec_assoc_lookup(s_new, k)
            == spec_assoc_lookup(s_old, k) by {
            if s_new[0].0@ != k {
                assert(spec_assoc_lookup(s_new, k) == spec_assoc_lookup(t_new, k));
                assert(spec_assoc_lookup(s_old, k) == spec_assoc_lookup(t_old, k));
            }
        }
    }
}

/// Pushing a binding with a key that is not yet present adds that binding and
/// changes nothing else.
proof fn lemma_assoc_push(
    s_old: Seq<(String, ShareRuntimeState)>,
    s_new: Seq<(String, ShareRuntimeState)>,
)
    requires
        s_new.len() == s_old.len() + 1,
        s_new.drop_last() == s_old,
        forall|j: int| 0 <= j < s_old.len() ==> #[trigger] s_old[j].0@ != s_new.last().0@,
    ensures
        spec_assoc_lookup(s_new, s_new.last().0@) == Some(s_new.last().1),
        forall|k: Seq<char>|
            k != s_new.last().0@ ==> spec_assoc_lookup(s_new, k) == spec_assoc_lookup(s_old, k),
    decreases s_old.len(),
{
    let key = s_new.last().0@;
    if s_old.len() == 0 {
        assert(s_new.len() == 1);
        assert(s_new[0] == s_new.last());
        assert(spec_assoc_lookup(s_new, key) == Some(s_new.last().1));
        assert forall|k: Seq<char>| k != key implies spec_assoc_lookup(s_new, k)
            == spec_assoc_lookup(s_old, k) by {
            assert(spec_assoc_lookup(s_new, k) == spec_assoc_lookup(s_new.drop_first(), k));
            assert(s_new.drop_first().len() == 0);
        }
    } else {
        let t_old = s_old.drop_first();
        let t_new = s_new.drop_first();
        assert(s_new[0] == s_old[0]);
        assert(t_new.last() == s_new.last());
        assert(t_new.drop_last() =~= t_old);
        assert forall|j: int| 0 <= j < t_old.len() implies #[trigger] t_old[j].0@
            != t_new.last().0@ by {
            assert(t_old[j] == s_old[j + 1]);
        }
        lemma_assoc_push(t_old, t_new);
        assert(s_old[0].0@ != key);
        assert forall|k: Seq<char>| k != key implies spec_assoc_lookup(s_new, k)
            == spec_assoc_lookup(s_old, k) by {
            if s_new[0].0@ != k {
                assert(spec_assoc_lookup(s_new, k) == spec_assoc_lookup(t_new, k));
                assert(spec_assoc_lookup(s_old, k) == spec_assoc_lookup(t_old, k));
            }
        }
    }
}

/// The ASCII lower-casing of a string.
pub fn to_lowercase(s: &str) -> (r: String)
    ensures
        r@ == lower_seq(s@),
{
    let len = s.unicode_len();
    let mut out = String::new();
    let mut i: usize = 0;
    while i < len
        invariant
            i <= len,
            len == s@.len(),
            out@ =~= lower_seq(s@).subrange(0, i as int),
        decreases len - i,
    {
        let c = crate::strings::lower_char_exec(s.get_char(i));
        out.append(char_as_str(c).as_str());
        proof {
            assert(out@ =~= lower_seq(s@).subrange(0, i as int + 1));
        }
        i += 1;
    }
    proof {
        assert(lower_seq(s@).subrange(0, len as int) =~= lower_seq(s@));
    }
    out
}

/// A one-character string.
fn char_as_str(c: char) -> (r: String)
    ensures
        r@ == seq![c],
{
    let mut s = String::new();
    push_one_char(&mut s, c);
    proof {
        assert(s@ =~= seq![c]);
    }
    s
}

/// A string holding exactly the given characters.
pub fn chars_to_string(v: &Vec<char>) -> (r: String)
    ensures
        r@ == v@,
{
    let mut out = String::new();
    let mut i: usize = 0;
    while i < v.len()
        invariant
            i <= v@.len(),
            out@ =~= v@.subrange(0, i as int),
        decreases v@.len() - i,
    {
        let mut one = String::new();
        let c = v[i];
        push_one_char(&mut one, c);
        out.append(one.as_str());
        proof {
            assert(out@ =~= v@.subrange(0, i as int + 1));
        }
        i += 1;
    }
    proof {
        assert(v@.subrange(0, v@.len() as int) =~= v@);
    }
    out
}

/// What one reconcile cycle observed about one backend.
#[derive(Debug, Clone, Copy, PartialEq, Eq, Structural)]
pub struct BackendObservation {
    pub reachable: bool,
    pub mounted: bool,
    pub alive: bool,
}

/// Update the primary-backend stability windows from this cycle's
/// observations: a window starts the first moment the backend is seen good
/// and is cleared the moment it is seen bad. Seeing the primary unreachable
/// also clears the pending-recovery flag.
pub open spec fn spec_update_tb_windows(
    e: ShareRuntimeState,
    tb_reachable: bool,
    tb_ready: bool,
    now: u64,
) -> ShareRuntimeState {
    ShareRuntimeState {
        tb_reachable_since: if tb_reachable {
            if e.tb_reachable_since is Some {
                e.tb_reachable_since
            } else {
                Some(now)
            }
        } else {
            None
        },
        tb_recovery_pending: if tb_reachable {
            e.tb_recovery_pending
        } else {
            false
        },
        tb_healthy_since: if tb_ready {
            if e.tb_healthy_since is Some {
                e.tb_healthy_since
            } else {
                Some(now)
            }
        } else {
            None
        },
        ..e
    }
}

pub fn update_tb_windows(
    entry: &ShareRuntimeState,
    tb_reachable: bool,
    tb_ready: bool,
    now: u64,
) -> (r: ShareRuntimeState)
    ensures
        r == spec_update_tb_windows(*entry, tb_reachable, tb_ready, now),
{
    let mut r = entry.snapshot();
    if tb_reachable {
        if r.tb_reachable_since.is_none() {
            r.tb_reachable_since = Some(now);
        }
    } else {
        r.tb_reachable_since = None;
        r.tb_recovery_pending = false;
    }
    if tb_ready {
        if r.tb_healthy_since.is_none() {
            r.tb_healthy_since = Some(now);
        }
    } else {
        r.tb_healthy_since = None;
    }
    r
}

/// The window start can never move forward while the window is open: it
/// either keeps its value, is cleared, or is set to `now` from empty. In
/// particular it stays at or before `now`.
pub proof fn lemma_monotone_reachable_window(
    e: ShareRuntimeState,
    tb_reachable: bool,
    tb_ready: bool,
    now: u64,
)
    ensures
        ({
            let r = spec_update_tb_windows(e, tb_reachable, tb_ready, now);
            &&& (r.tb_reachable_since is Some && e.tb_reachable_since is Some
                ==> r.tb_reachable_since == e.tb_reachable_since)
            &&& (r.tb_reachable_since is Some && e.tb_reachable_since is None
                ==> r.tb_reachable_since == Some(now))
            &&& ((match e.tb_reachable_since {
                Some(t) => t <= now,
                None => true,
            }) ==> (match r.tb_reachable_since {
                Some(t) => t <= now,
                None => true,
            }))
        }),
{
}

/// The start of the primary's uninterrupted good window: the earlier of the
/// reachability window and the health window, when both are open.
pub open spec fn spec_stability_since(e: ShareRuntimeState) -> Option<u64> {
    match (e.tb_reachable_since, e.tb_healthy_since) {
        (Some(a), Some(b)) => Some(if a <= b { a } else { b }),
        (Some(a), None) => Some(a),
        (None, Some(b)) => Some(b),
        (None, None) => None,
    }
}

pub fn tb_stability_since(entry: &ShareRuntimeState) -> (r: Option<u64>)
    ensures
        r == spec_stability_since(*entry),
{
    match (entry.tb_reachable_since, entry.tb_healthy_since) {
        (Some(a), Some(b)) => Some(if a <= b { a } else { b }),
        (Some(a), None) => Some(a),
        (None, Some(b)) => Some(b),
        (None, None) => None,
    }
}

/// Whether a window that started at `since` has lasted at least `window`
/// seconds by `now`. A start in the future counts as zero elapsed time.
pub open spec fn spec_stable_elapsed(since: Option<u64>, window: u64, now: u64) -> bool {
    match since {
        Some(t) => (if now >= t {
            (now - t) as u64
        } else {
            0
        }) >= window,
        None => false,
    }
}

pub fn stable_elapsed(since: Option<u64>, window: u64, now: u64) -> (r: bool)
    ensures
        r == spec_stable_elapsed(since, window, now),
{
    match since {
        Some(t) => {
            let elapsed: u64 = if now >= t {
                now - t
            } else {
                0
            };
            elapsed >= window
        },
        None => false,
    }
}

/// The desired-backend decision table. `tb_up` and `fb_up` are "reachable"
/// in single-mount operation and "ready" in dual-mount operation.
///
/// - With no active backend: prefer the primary when it is up, else the
///   fallback when it is up, else none.
/// - Active on the primary: stay while it is up, otherwise desire the
///   fallback.
/// - Active on the fallback: when the fallback is down, desire the primary
///   if it is up; when both are up, desire the primary only under
///   auto-failback after the stability window has elapsed; otherwise stay.
pub open spec fn spec_choose_desired(
    active: Option<Backend>,
    tb_up: bool,
    fb_up: bool,
    auto_failback: bool,
    since: Option<u64>,
    window: u64,
    now: u64,
) -> Option<Backend> {
    match active {
        Some(Backend::Tb) => if tb_up {
            Some(Backend::Tb)
        } else {
            Some(Backend::Fallback)
        },
        Some(Backend::Fallback) => if !fb_up {
            if tb_up {
                Some(Backend::Tb)
            } else {
                Some(Backend::Fallback)
            }
        } else if tb_up && auto_failback && spec_stable_elapsed(since, window, now) {
            Some(Backend::Tb)
        } else {
            Some(Backend::Fallback)
        },
        None => if tb_up {
            Some(Backend::Tb)
        } else if fb_up {
            Some(Backend::Fallback)
        } else {
            None
        },
    }
}

/// Choose the desired backend from readiness, for dual-mount operation.
pub fn choose_desired_backend(
    active: Option<Backend>,
    tb_ready: bool,
    fb_ready: bool,
    auto_failback: bool,
    tb_stability_since: Option<u64>,
    failback_stable_secs: u64,
    now: u64,
) -> (r: Option<Backend>)
    ensures
        r == spec_choose_desired(
            active,
            tb_ready,
            fb_ready,
            auto_failback,
            tb_stability_since,
            failback_stable_secs,
            now,
        ),
{
    choose_desired_impl(
        active,
        tb_ready,
        fb_ready,
        auto_failback,
        tb_stability_since,
        failback_stable_secs,
        now,
    )
}

/// Choose the desired backend from reachability, for single-mount operation:
/// only the active backend is ever mounted, so readiness of the other side
/// cannot be observed.
pub fn choose_desired_backend_single_mount(
    active: Option<Backend>,
    tb_reachable: bool,
    fb_reachable: bool,
    auto_failback: bool,
    tb_stability_since: Option<u64>,
    failback_stable_secs: u64,
    now: u64,
) -> (r: Option<Backend>)
    ensures
        r == spec_choose_desired(
            active,
            tb_reachable,
            fb_reachable,
            auto_failback,
            tb_stability_since,
            failback_stable_secs,
            now,
        ),
{
    choose_desired_impl(
        active,
        tb_reachable,
        fb_reachable,
        auto_failback,
        tb_stability_since,
        failback_stable_secs,
        now,
    )
}

fn choose_desired_impl(
    active: Option<Backend>,
    tb_up: bool,
    fb_up: bool,
    auto_failback: bool,
    since: Option<u64>,
    window: u64,
    now: u64,
) -> (r: Option<Backend>)
    ensures
        r == spec_choose_desired(active, tb_up, fb_up, auto_failback, since, window, now),
{
    match active {
        Some(Backend::Tb) => {
            if tb_up {
                Some(Backend::Tb)
            } else {
                Some(Backend::Fallback)
            }
        },
        Some(Backend::Fallback) => {
            if !fb_up {
                if tb_up {
                    return Some(Backend::Tb);
                }
                return Some(Backend::Fallback);
            }
            if tb_up && auto_failback && stable_elapsed(since, window, now) {
                return Some(Backend::Tb);
            }
            Some(Backend::Fallback)
        },
        None => {
            if tb_up {
                Some(Backend::Tb)
            } else if fb_up {
                Some(Backend::Fallback)
            } else {
                None
            }
        },
    }
}

/// What a reconcile cycle decides to do for one share, beyond updating the
/// runtime state.
#[derive(Debug, Clone, Copy, PartialEq, Eq, Structural)]
pub enum ShareAction {
    /// Nothing to do.
    Noop,
    /// No backend is active: mount this one.
    InitialMount { backend: Backend },
    /// The active backend's mount is gone (a stale mount was just cleared,
    /// or it dropped) but the backend still answers: mount it again at the
    /// same mount point. The backend stays active.
    RemountActive { backend: Backend },
    /// The active backend's mount is gone and the backend cannot be
    /// remounted, and the other side is unreachable too: nothing is mounted,
    /// so the share no longer has an active backend.
    ClearActive,
    /// The active backend is no longer ready and the other side is
    /// reachable: run the switch protocol.
    Failover { from: Backend, to: Backend },
    /// Running on the fallback, the primary has been stable long enough, and
    /// auto-failback is on: switch back to the primary.
    AutoFailback,
    /// Running on the fallback with the primary visible and auto-failback
    /// off: record that a recovery switch awaits user consent.
    SetRecoveryPending,
    /// Running on the primary: recovery is no longer pending.
    ClearRecoveryPending,
}

/// The action a cycle takes for one share, given the updated windows.
///
/// With an active backend whose mount is gone, the remembered backend is
/// remounted while it answers; an unreachable active backend fails over when
/// the other side answers, and loses its active standing when neither side
/// does — the persisted state then matches the empty mount table. A live
/// mount is never given up just because probes fail: while the active
/// backend's mount is present, two unreachable backends mean no action.
pub open spec fn spec_plan_share_action(
    active: Option<Backend>,
    tb: BackendObservation,
    fb: BackendObservation,
    auto_failback: bool,
    since: Option<u64>,
    window: u64,
    now: u64,
) -> ShareAction {
    let tb_ready = tb.reachable && tb.mounted && tb.alive;
    let fb_ready = fb.reachable && fb.mounted && fb.alive;
    match active {
        Some(a) => {
            let own = match a {
                Backend::Tb => tb,
                Backend::Fallback => fb,
            };
            let active_ready = match a {
                Backend::Tb => tb_ready,
                Backend::Fallback => fb_ready,
            };
            let other_reachable = match a {
                Backend::Tb => fb.reachable,
                Backend::Fallback => tb.reachable,
            };
            if !own.mounted && own.reachable {
                ShareAction::RemountActive { backend: a }
            } else if !active_ready {
                if other_reachable {
                    ShareAction::Failover {
                        from: a,
                        to: match a {
                            Backend::Tb => Backend::Fallback,
                            Backend::Fallback => Backend::Tb,
                        },
                    }
                } else if !own.mounted {
                    ShareAction::ClearActive
                } else {
                    ShareAction::Noop
                }
            } else if a is Fallback && tb.reachable {
                if !auto_failback {
                    ShareAction::SetRecoveryPending
                } else if spec_stable_elapsed(since, window, now) {
                    ShareAction::AutoFailback
                } else {
                    ShareAction::Noop
                }
            } else if a is Tb {
                ShareAction::ClearRecoveryPending
            } else {
                ShareAction::Noop
            }
        },
        None => match spec_choose_desired(
            None,
            tb.reachable,
            fb.reachable,
            auto_failback,
            since,
            window,
            now,
        ) {
            Some(d) => ShareAction::InitialMount { backend: d },
            None => ShareAction::Noop,
        },
    }
}

/// A remount of the active backend is decided only while its mount is gone:
/// the engine never stacks a second mount over a live one.
pub proof fn lemma_remount_only_when_unmounted(
    active: Option<Backend>,
    tb: BackendObservation,
    fb: BackendObservation,
    auto_failback: bool,
    since: Option<u64>,
    window: u64,
    now: u64,
)
    ensures
        (match spec_plan_share_action(active, tb, fb, auto_failback, since, window, now) {
            ShareAction::RemountActive { backend } => active == Some(backend) && !(match backend {
                Backend::Tb => tb,
                Backend::Fallback => fb,
            }).mounted,
            _ => true,
        }),
{
}

/// One share's reconcile step on the runtime state: update the stability
/// windows, then decide the action, then record a pending or cleared
/// recovery flag. Switch and mount outcomes are applied separately, through
/// [`crate::switching::switch_protocol`] and the `apply_*` functions, because
/// they depend on operations performed outside this crate.
pub open spec fn spec_reconcile_entry(
    e: ShareRuntimeState,
    tb: BackendObservation,
    fb: BackendObservation,
    auto_failback: bool,
    window: u64,
    now: u64,
) -> (ShareRuntimeState, ShareAction) {
    let tb_ready = tb.reachable && tb.mounted && tb.alive;
    let e1 = spec_update_tb_windows(e, tb.reachable, tb_ready, now);
    let since = spec_stability_since(e1);
    let action = spec_plan_share_action(
        e1.active_backend,
        tb,
        fb,
        auto_failback,
        since,
        window,
        now,
    );
    let e2 = if action is SetRecoveryPending {
        ShareRuntimeState { tb_recovery_pending: true, ..e1 }
    } else if action is ClearRecoveryPending {
        ShareRuntimeState { tb_recovery_pending: false, ..e1 }
    } else if action is ClearActive {
        ShareRuntimeState { active_backend: None, ..e1 }
    } else {
        e1
    };
    (e2, action)
}

pub fn reconcile_entry(
    entry: &ShareRuntimeState,
    tb: BackendObservation,
    fb: BackendObservation,
    auto_failback: bool,
    failback_stable_secs: u64,
    now: u64,
) -> (r: (ShareRuntimeState, ShareAction))
    ensures
        r == spec_reconcile_entry(*entry, tb, fb, auto_failback, failback_stable_secs, now),
{
    let tb_ready = tb.reachable && tb.mounted && tb.alive;
    let mut e = update_tb_windows(entry, tb.reachable, tb_ready, now);
    let since = tb_stability_since(&e);
    let action = plan_share_action_exec(
        e.active_backend,
        tb,
        fb,
        auto_failback,
        since,
        failback_stable_secs,
        now,
    );
    if let ShareAction::SetRecoveryPending = action {
        e.tb_recovery_pending = true;
    } else if let ShareAction::ClearRecoveryPending = action {
        e.tb_recovery_pending = false;
    } else if let ShareAction::ClearActive = action {
        e.active_backend = None;
    }
    (e, action)
}

fn plan_share_action_exec(
    active: Option<Backend>,
    tb: BackendObservation,
    fb: BackendObservation,
    auto_failback: bool,
    since: Option<u64>,
    window: u64,
    now: u64,
) -> (r: ShareAction)
    ensures
        r == spec_plan_share_action(active, tb, fb, auto_failback, since, window, now),
{
    let tb_ready = tb.reachable && tb.mounted && tb.alive;
    let fb_ready = fb.reachable && fb.mounted && fb.alive;
    match active {
        Some(a) => {
            let own = match a {
                Backend::Tb => tb,
                Backend::Fallback => fb,
            };
            let active_ready = match a {
                Backend::Tb => tb_ready,
                Backend::Fallback => fb_ready,
            };
            let other_reachable = match a {
                Backend::Tb => fb.reachable,
                Backend::Fallback => tb.reachable,
            };
            if !own.mounted && own.reachable {
                ShareAction::RemountActive { backend: a }
            } else if !active_ready {
                if other_reachable {
                    ShareAction::Failover { from: a, to: a.other() }
                } else if !own.mounted {
                    ShareAction::ClearActive
                } else {
                    ShareAction::Noop
                }
            } else if matches!(a, Backend::Fallback) && tb.reachable {
                if !auto_failback {
                    ShareAction::SetRecoveryPending
                } else if stable_elapsed(since, window, now) {
                    ShareAction::AutoFailback
                } else {
                    ShareAction::Noop
                }
            } else if matches!(a, Backend::Tb) {
                ShareAction::ClearRecoveryPending
            } else {
                ShareAction::Noop
            }
        },
        None => {
            match choose_desired_backend_single_mount(
                None,
                tb.reachable,
                fb.reachable,
                auto_failback,
                since,
                window,
                now,
            ) {
                Some(d) => ShareAction::InitialMount { backend: d },
                None => ShareAction::Noop,
            }
        },
    }
}

/// Reconciling is idempotent on the runtime state: with the same
/// observations and the same clock, a second reconcile step leaves the state
/// of the first unchanged. It also decides the same action again, except
/// that clearing the active backend is done once: the second step, seeing no
/// active backend and nothing reachable, has nothing left to do.
pub proof fn lemma_reconcile_entry_idempotent(
    e: ShareRuntimeState,
    tb: BackendObservation,
    fb: BackendObservation,
    auto_failback: bool,
    window: u64,
    now: u64,
)
    ensures
        ({
            let (e1, a1) = spec_reconcile_entry(e, tb, fb, auto_failback, window, now);
            let (e2, a2) = spec_reconcile_entry(e1, tb, fb, auto_failback, window, now);
            e2 == e1 && (!(a1 is ClearActive) ==> a2 == a1) && (a1 is ClearActive ==> a2
                is Noop)
        }),
{
}

/// Take over the backend detected from the published symlink, when there is
/// one; the remembered backend stays otherwise.
pub fn absorb_detected_active(
    entry: &ShareRuntimeState,
    detected: Option<Backend>,
) -> (r: ShareRuntimeState)
    ensures
        r == (ShareRuntimeState {
            active_backend: if detected is Some {
                detected
            } else {
                entry.active_backend
            },
            ..*entry
        }),
{
    let mut r = entry.snapshot();
    if let Some(b) = detected {
        r.active_backend = Some(b);
    }
    r
}

/// Commit a successful initial mount: the backend becomes active and the
/// switch time is recorded.
pub fn apply_initial_mount_success(
    entry: &ShareRuntimeState,
    backend: Backend,
    now: u64,
) -> (r: ShareRuntimeState)
    ensures
        r == (ShareRuntimeState {
            active_backend: Some(backend),
            last_switch_at: Some(now),
            ..*entry
        }),
{
    let mut r = entry.snapshot();
    r.active_backend = Some(backend);
    r.last_switch_at = Some(now);
    r
}

/// Record a failed initial mount; nothing else changes.
pub fn apply_initial_mount_failure(entry: &ShareRuntimeState, error: String) -> (r:
    ShareRuntimeState)
    ensures
        r == (ShareRuntimeState { last_error: Some(error), ..*entry }),
{
    let mut r = entry.snapshot();
    r.last_error = Some(error);
    r
}

/// Record a failure of any kind against the entry.
pub fn apply_error(entry: &ShareRuntimeState, error: String) -> (r: ShareRuntimeState)
    ensures
        r == (ShareRuntimeState { last_error: Some(error), ..*entry }),
{
    let mut r = entry.snapshot();
    r.last_error = Some(error);
    r
}

/// Relies on `String::push` of std, which vstd gives no specification:
/// appends exactly the one character to the string.
#[verifier::external_body]
pub(crate) fn push_one_char(s: &mut String, c: char)
    ensures
        final(s)@ == old(s)@ + seq![c],
{
    s.push(c);
}

} // verus!
