//! Mosaic: userspace Binder plumbing, the package registry and the device
//! services that Android's framework expects to find by name.

pub mod actions;
pub mod args;
pub mod binder;
pub mod broker;
pub mod config;
pub mod device;
pub mod guest;
pub mod helpers;
pub mod octets;
pub mod text;
