//! Remote-shell traversal support.
//!
//! A remote-shell scan drives the engine in [`crate::traversal`] over a
//! file-transfer session; the session itself (authentication, channels,
//! listing calls) lives outside the library.  What the library owns is the
//! path arithmetic the remote side needs: sftp paths are plain strings,
//! joined with [`path_join`].

pub use crate::paths::path_join;
