//! Verified core of the omavault helper: argument parsing, mount-table and
//! gocryptfs output handling, vault layout, and the command decisions.

pub mod text;
pub mod mounts;
pub mod gocryptfs;
pub mod cli;
pub mod paths;
pub mod scan;
pub mod holders;
pub mod session;
