//! Mountaineer: a failover manager for SMB network shares that are reachable
//! over two backends (a fast direct link and a slower fallback path).
//!
//! This crate is the verified core: the declarative configuration model and
//! its validation, the per-share reconciliation state machine, the
//! single-mount switch protocol with rollback, symlink publication planning,
//! and the parsers for the OS tool output the daemon consumes. All operating
//! system effects (subprocesses, filesystem, network) live outside this
//! crate; the functions here take the observed outcomes of those effects as
//! plain values and decide what to do next.

use vstd::prelude::*;

pub mod codec;
pub mod config;
pub mod discovery;
pub mod engine;
pub mod launchd;
pub mod linker;
pub mod ops;
pub mod smb;
pub mod status;
pub mod switching;
pub mod wol;
pub mod strings;

verus! {

/// The two backends a share can be reached through.
#[derive(Debug, Clone, Copy, PartialEq, Eq, Structural)]
pub enum Backend {
    Tb,
    Fallback,
}

impl Backend {
    /// The short label used in status tables and on the command line.
    pub fn short_label(self) -> (r: &'static str)
        ensures
            self is Tb ==> r@ == "tb"@,
            self is Fallback ==> r@ == "fallback"@,
    {
        match self {
            Backend::Tb => "tb",
            Backend::Fallback => "fallback",
        }
    }

    /// The backend opposite to this one.
    pub fn other(self) -> (r: Backend)
        ensures
            self is Tb <==> r is Fallback,
    {
        match self {
            Backend::Tb => Backend::Fallback,
            Backend::Fallback => Backend::Tb,
        }
    }
}

} // verus!
