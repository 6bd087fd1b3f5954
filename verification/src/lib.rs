//! Snapshots of git working trees, taken whenever a watched repository has
//! changed and then stayed quiet.
//!
//! `repo` holds the snapshot engine and `credential` the credentials for
//! its pushes. `watcher` holds the watch registry with its debounce
//! dispatcher, `repo_watcher` the coordinator that builds a registry from a
//! configuration and swaps it when the configuration changes, and
//! `watcher_olc` a watcher that debounces the messages of one channel.
//!
//! The library waits for nothing and reads no clock: events reach it with
//! the time at which they arrived, in milliseconds, and paths reach it as
//! canonical, absolute text with `/` between the components.
pub mod credential;
pub mod error;
mod git;
pub mod repo;
pub mod repo_watcher;
pub mod util;
pub mod watcher;
pub mod watcher_olc;
