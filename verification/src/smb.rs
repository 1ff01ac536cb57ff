//! SMB mount operation support: the error type the mount driver reports,
//! the mount-strategy decision for the OS-managed `/Volumes` directory, and
//! the reading of the OS mount table. Running the mount, unmount and
//! enumeration commands happens outside this crate.

use vstd::prelude::*;

use crate::discovery::ShareCheckResult;
use crate::strings::{
    contains_str, contains_sub, dec_str_signed, i32_to_string, lines, spec_lines,
};

verus! {

/// Why a mount or unmount operation failed.
#[derive(Debug, Clone, PartialEq)]
pub enum MountError {
    /// The mount point directory could not be created.
    CreateMountPoint { path: String, source: String },
    /// The mount command failed.
    MountFailed { stderr: String, exit_code: Option<i32> },
    /// Both the graceful and the forced unmount paths failed.
    UnmountFailed { stderr: String },
    /// The command binary could not be spawned.
    CommandSpawn { command: String, source: String },
}

/// The exit-code part of a mount failure message: the code's digits, or `?`
/// when the process reported none.
pub open spec fn spec_exit_code_text(code: Option<i32>) -> Seq<char> {
    match code {
        Some(c) => dec_str_signed(c as int),
        None => "?"@,
    }
}

impl MountError {
    /// The human-readable message for this failure.
    pub fn message(&self) -> (r: String)
        ensures
            self matches MountError::CreateMountPoint { path, source } ==> r@
                == "failed to create mount point "@ + path@ + ": "@ + source@,
            self matches MountError::MountFailed { stderr, exit_code } ==> r@
                == "mount_smbfs failed (exit "@ + spec_exit_code_text(*exit_code) + "): "@
                + stderr@,
            self matches MountError::UnmountFailed { stderr } ==> r@ == "unmount failed: "@
                + stderr@,
            self matches MountError::CommandSpawn { command, source } ==> r@
                == "failed to spawn "@ + command@ + ": "@ + source@,
    {
        match self {
            MountError::CreateMountPoint { path, source } => {
                let mut s = "failed to create mount point ".to_owned();
                s.append(path.as_str());
                s.append(": ");
                s.append(source.as_str());
                s
            },
            MountError::MountFailed { stderr, exit_code } => {
                let mut s = "mount_smbfs failed (exit ".to_owned();
                match exit_code {
                    Some(c) => {
                        s.append(i32_to_string(*c).as_str());
                    },
                    None => {
                        s.append("?");
                    },
                }
                s.append("): ");
                s.append(stderr.as_str());
                s
            },
            MountError::UnmountFailed { stderr } => {
                let mut s = "unmount failed: ".to_owned();
                s.append(stderr.as_str());
                s
            },
            MountError::CommandSpawn { command, source } => {
                let mut s = "failed to spawn ".to_owned();
                s.append(command.as_str());
                s.append(": ");
                s.append(source.as_str());
                s
            },
        }
    }
}

/// What to do when the `/Volumes` mount point directory does not exist yet
/// and the share's availability has been preflighted.
#[derive(Debug, Clone, Copy, PartialEq, Eq, Structural)]
pub enum MissingVolumesDirAction {
    /// Go ahead and mount through the path that can create the directory.
    AttemptMount,
    /// The server answered and does not offer the share: do not mount.
    SkipNotFound,
}

/// Decide what a missing `/Volumes` directory means for the mount attempt:
/// only a definite "the share is not offered" answer stops it; an available
/// share and an inconclusive preflight both proceed.
pub fn decide_missing_volumes_dir_action(check: &ShareCheckResult) -> (r: MissingVolumesDirAction)
    ensures
        check is NotFound <==> r is SkipNotFound,
        check is Available || check is Unknown <==> r is AttemptMount,
{
    match check {
        ShareCheckResult::NotFound => MissingVolumesDirAction::SkipNotFound,
        ShareCheckResult::Available | ShareCheckResult::Unknown { .. } => {
            MissingVolumesDirAction::AttemptMount
        },
    }
}

/// The SMB URL for a share on a server: `//server/share`.
pub fn smb_url(server: &str, share: &str) -> (r: String)
    ensures
        r@ == "//"@ + server@ + "/"@ + share@,
{
    let mut s = "//".to_owned();
    s.append(server);
    s.append("/");
    s.append(share);
    s
}

/// Whether the mount table output lists the target path on any line.
pub open spec fn spec_mount_table_lists(text: Seq<char>, target: Seq<char>) -> bool {
    exists|i: int|
        0 <= i < spec_lines(text).len() && contains_sub(#[trigger] spec_lines(text)[i], target)
}

/// Read `mount -t smbfs` output and report whether any line mentions the
/// target mount point.
pub fn mount_table_lists(text: &str, target: &str) -> (r: bool)
    ensures
        r == spec_mount_table_lists(text@, target@),
{
    let ls = lines(text);
    let ghost lviews = ls@.map_values(|l: String| l@);
    let n = ls.len();
    let mut i: usize = 0;
    while i < n
        invariant
            n == ls@.len(),
            lviews == ls@.map_values(|l: String| l@),
            lviews == spec_lines(text@),
            i <= n,
            forall|j: int| 0 <= j < i ==> !contains_sub(#[trigger] lviews[j], target@),
        decreases n - i,
    {
        proof {
            assert(lviews[i as int] == ls@[i as int]@);
        }
        if contains_str(ls[i].as_str(), target) {
            return true;
        }
        i += 1;
    }
    false
}

} // verus!
