//! Stable-symlink publication: the decision whether a publish may proceed,
//! the name of the temporary sibling link, and a model of the publish
//! protocol over which its atomicity is proved. The filesystem calls
//! themselves happen outside this crate.

use vstd::prelude::*;

use crate::strings::{dec_str, u64_to_string};

verus! {

/// Why a publish was refused or failed.
#[derive(Debug, Clone)]
pub enum LinkerError {
    /// The link path exists and is not a symlink: it is never overwritten.
    NotASymlink { path: String },
}

impl LinkerError {
    /// The human-readable message for this failure.
    pub fn message(&self) -> (r: String)
        ensures
            self matches LinkerError::NotASymlink { path } ==> r@ == path@
                + " exists and is not a symlink"@,
    {
        match self {
            LinkerError::NotASymlink { path } => {
                let mut s = path.clone();
                s.append(" exists and is not a symlink");
                s
            },
        }
    }
}

/// The name of the temporary sibling link: `.<name>.tmp-<pid>`.
pub open spec fn spec_tmp_link_name(file_name: Seq<char>, pid: u64) -> Seq<char> {
    "."@ + file_name + ".tmp-"@ + dec_str(pid as nat)
}

pub fn tmp_link_name(file_name: &str, pid: u64) -> (r: String)
    ensures
        r@ == spec_tmp_link_name(file_name@, pid),
{
    let mut s = ".".to_owned();
    s.append(file_name);
    s.append(".tmp-");
    s.append(u64_to_string(pid).as_str());
    s
}

/// Decide whether a publish may proceed. A link path that exists and is not
/// a symlink is never overwritten: the publish fails instead. Otherwise the
/// protocol is: create the temporary sibling symlink, then rename it over
/// the link path; the rename is the atomicity primitive.
pub fn plan_publish(
    link_exists: bool,
    link_is_symlink: bool,
    link_path: &str,
    file_name: &str,
    pid: u64,
) -> (r: Result<String, LinkerError>)
    ensures
        r is Ok <==> !(link_exists && !link_is_symlink),
        r matches Ok(tmp) ==> tmp@ == spec_tmp_link_name(file_name@, pid),
        r matches Err(LinkerError::NotASymlink { path }) ==> link_exists && !link_is_symlink
            && path@ == link_path@,
{
    if link_exists && !link_is_symlink {
        return Err(LinkerError::NotASymlink { path: link_path.to_owned() });
    }
    Ok(tmp_link_name(file_name, pid))
}

/// What an observer sees at the link path: nothing, or a symlink to some
/// target.
pub type LinkView = Option<Seq<char>>;

/// The states the link path passes through during a publish that proceeds:
/// the initial state, the state after the temporary sibling was created
/// (unchanged: the sibling is a different path), and the state after the
/// rename.
pub open spec fn spec_publish_trace(initial: LinkView, new_target: Seq<char>) -> Seq<LinkView> {
    seq![initial, initial, Some(new_target)]
}

/// Atomicity of publish: at every instant the link path shows either what it
/// showed before the publish or the new target — never a third value, and,
/// when a link existed before, never a missing link.
pub proof fn lemma_publish_atomic(initial: LinkView, new_target: Seq<char>)
    ensures
        forall|i: int|
            0 <= i < spec_publish_trace(initial, new_target).len() ==> (
            #[trigger] spec_publish_trace(initial, new_target)[i]) == initial
                || spec_publish_trace(initial, new_target)[i] == Some(new_target),
        initial is Some ==> forall|i: int|
            0 <= i < spec_publish_trace(initial, new_target).len() ==> (
            #[trigger] spec_publish_trace(initial, new_target)[i]) is Some,
{
}

/// Resolve a raw symlink target against the link's parent directory:
/// an absolute target stands alone, a relative one is joined to the parent.
pub fn resolve_link_target(raw: &str, parent: &str) -> (r: String)
    ensures
        raw@.len() > 0 && raw@[0] == '/' ==> r@ == raw@,
        !(raw@.len() > 0 && raw@[0] == '/') ==> r@ == crate::config::spec_join(parent@, raw@),
{
    if raw.unicode_len() > 0 && raw.get_char(0) == '/' {
        raw.to_owned()
    } else {
        crate::config::join_path(parent, raw)
    }
}

} // verus!
