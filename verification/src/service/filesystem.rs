//! The filesystem scan service protocol: requests carry the root as the
//! user wrote it (a leading `~` included), events carry discovered
//! repositories.
//!
//! The service itself — the bounded channels and the task running the
//! worker — is wiring outside the library.  Before a scan starts, the
//! worker expands the root with [`crate::paths::expand_tilde`] against
//! the home directory the environment supplies, then drives the engine
//! in [`crate::traversal`].

use vstd::prelude::*;

use crate::model::LocalRepo;

verus! {

/// A request to the scan service: scan one root, written as the user
/// configured it.
pub enum Request {
    Scan(String),
}

/// An event the scan service streams to the consumer.
pub enum Event {
    LocalRepo(LocalRepo),
}

} // verus!
