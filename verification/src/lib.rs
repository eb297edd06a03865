//! Structured log capture, browsing and kubectl log streaming: the rules
//! behind the `klogz` command, with their contracts.

pub mod commands;
pub mod config;
pub mod paths;
pub mod sorting;
pub mod stamp;
pub mod text;
pub mod util;
