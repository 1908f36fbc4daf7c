//! The local-filesystem scan protocol: the request a consumer sends to
//! the scan worker and the event the worker streams back.
//!
//! The worker's logic is the engine in [`crate::traversal`]: a driver
//! outside the library answers its per-directory questions with real
//! directory reads and worktree tests, and forwards each
//! [`StepEvent`](crate::traversal::StepEvent) on the event and warning
//! channels.

use vstd::prelude::*;

use crate::model::LocalRepo;

verus! {

/// A request to the scan worker: scan one root directory.
pub enum Request {
    Scan(String),
}

/// An event the scan worker streams to the consumer.
pub enum Event {
    LocalRepo(LocalRepo),
}

} // verus!
