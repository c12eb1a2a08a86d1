//! The decisions behind the command-line actions: what a package's user is
//! called, what a runtime bundle's name says, which vendor a host is.

pub mod initializer;
pub mod runtime_cmd;
pub mod uid_helper;
