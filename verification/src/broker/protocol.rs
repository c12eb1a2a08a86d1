//! The control plane's messages: what a client asks the broker, and what it
//! is told.

use vstd::prelude::*;

use crate::broker::registry::Package;

verus! {

/// A request to the broker.
#[derive(Debug, PartialEq, Eq)]
pub enum Request {
    /// Reserve a UID and data directory for an APK. The broker owns the
    /// allocation; nothing privileged happens here.
    Install { apk: String },
    /// Make a reserved package permanent, after the caller has done the
    /// privileged setup. Committing twice is the same as once.
    Commit { package: Package },
    Uninstall { package: String },
    Launch { package: String, args: Vec<String> },
    Query { package: Option<String> },
    Ping,
}

/// The broker's answer to a request.
#[derive(Debug, PartialEq, Eq)]
pub enum Response {
    Pong,
    /// A reserved package: the caller must now create its user and data
    /// directory, then send `Commit`.
    Planned(Package),
    Installed(Package),
    /// The removed package, so the caller can delete its data directory.
    Uninstalled(Package),
    Apps(Vec<Package>),
    Launched { package: String },
    Error { message: String },
}

} // verus!
