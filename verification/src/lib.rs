//! A minimal incremental-build engine.
//!
//! A rule file declares targets, their dependencies, and the shell commands
//! that produce them ([`mkfile`]).  The engine ([`making`]) walks the
//! dependency graph rooted at one requested target, depth first, and decides
//! from a persisted record of prior build times what is stale and must be
//! rebuilt.  It performs no I/O itself: every filesystem question and every
//! command run surfaces as a query that the surrounding driver answers, so
//! every decision the build takes is verified.

use vstd::prelude::*;

pub mod making;
pub mod mkfile;

verus! {

} // verus!
