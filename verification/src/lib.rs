//! Discovery of git repositories across heterogeneous storage backends.
//!
//! The library holds the verified core: the breadth-first traversal engine
//! that discovers primary git worktrees, the token-bucket rate limiter that
//! paces hosted-API requests, the percent template formatter, configuration
//! validation, and the presentation model (filtering, scrolling, path
//! display).  All I/O — reading directories, remote-shell sessions, HTTP
//! paging, the terminal — lives outside the library and feeds it plain
//! values.

pub mod app;
pub mod config;
pub mod filesystem;
pub mod handler;
pub mod gitconfig;
pub mod github;
pub mod model;
pub mod nesting;
pub mod paths;
pub mod presenter;
pub mod ratelimit;
pub mod template;
pub mod text;
pub mod traversal;
pub mod service;
pub mod ssh;
pub mod util;
