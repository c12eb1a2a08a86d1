//! Small pieces the rest of the program leans on: version numbers, property
//! files, shell command lines, the HTTP cache layout and the like.

pub mod gpu;
pub mod http;
pub mod images;
pub mod ipc;
pub mod lxc;
pub mod mount;
pub mod process;
pub mod props;
pub mod protocol;
pub mod run;
pub mod version;
