//! What the serving boundary decides: which requests pass, which
//! projection answers, and how a failure is reported.

pub mod files;

use crate::registry::ProjectionRegistry;
use crate::text::has_prefix;
use crate::workspace::Workspace;
use vstd::prelude::*;

verus! {

/// What the handlers share: the workspace and the registry, built once at
/// start and only read afterwards.
pub struct AppState {
    pub workspace: Workspace,
    pub registry: ProjectionRegistry,
}

/// Whether an origin is this machine: its text starts with the address of
/// the loopback interface or with `localhost`.
pub open spec fn local_origin(origin: Seq<char>) -> bool {
    ||| "http://127.0.0.1"@.is_prefix_of(origin)
    ||| "http://localhost"@.is_prefix_of(origin)
    ||| "http://[::1]"@.is_prefix_of(origin)
}

/// Whether a request passes the origin check: one that only reads always
/// does; one that changes something does if it names no origin or a local
/// one.
pub open spec fn request_passes(reads_only: bool, origin: Seq<char>) -> bool {
    reads_only || origin.len() == 0 || local_origin(origin)
}

/// Decides whether a request passes the origin check. `origin` is the
/// request's origin, empty where it gives none.
pub fn csrf_allows(reads_only: bool, origin: &str) -> (r: bool)
    ensures
        r == request_passes(reads_only, origin@),
{
    if reads_only {
        return true;
    }
    if origin.is_empty() {
        return true;
    }
    has_prefix(origin, "http://127.0.0.1") || has_prefix(origin, "http://localhost") || has_prefix(
        origin,
        "http://[::1]",
    )
}

} // verus!
