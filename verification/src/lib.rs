//! Supervision of long-running fuzzing campaigns, one per tracked git
//! repository.
//!
//! The crate models the core of a campaign-running service: parsing a
//! repository URL (with an optional branch suffix) into a stable identity
//! (`git`), a deduplicated registry of tracked repositories (`registry`),
//! and the supervisor that maps each repository name to the lifecycle
//! state of its external fuzzing process (`medusa`).  All I/O — spawning
//! the fuzzer, signalling it, reading and writing the persisted repository
//! list — happens outside this crate; the functions here take the outcomes
//! of those actions as plain values and are verified for every outcome.

pub mod errors;
pub mod git;
pub mod medusa;
pub mod registry;
pub mod report;
pub mod text;
