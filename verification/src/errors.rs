//! The closed error model of the campaign service.

use vstd::prelude::*;

verus! {

/// Every failure the service can report.
///
/// `MalformedUrl` is raised while parsing a repository identity;
/// `NotFound`, `AlreadyRunning`, `NotRunning` and `SpawnFailure` come from
/// the supervisor's start/stop/query protocol.  `SignalFailure` (the stop
/// signal could not be delivered; the map entry is gone but the process may
/// live on) and `PersistenceFailure` (the repository list could not be
/// written) are produced by the unverified I/O layer around this crate,
/// which shares this one closed error type.
#[derive(Debug)]
pub enum CampaignError {
    MalformedUrl,
    NotFound,
    AlreadyRunning,
    NotRunning,
    SpawnFailure { message: String },
    SignalFailure { message: String },
    PersistenceFailure { message: String },
}

} // verus!
