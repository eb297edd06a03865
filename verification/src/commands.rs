//! The decisions behind each `klogz` subcommand.

pub mod cap;
pub mod clean;
pub mod follow;
pub mod klf;
pub mod look;
