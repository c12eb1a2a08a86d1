//! Configuration: where Mosaic keeps its state, the runtime bundle to use and
//! the UID range reserved for per-app users, read from an INI file whose
//! `[mosaic]` section may override the defaults.

pub mod load;
pub mod save;

use vstd::prelude::*;

use crate::broker::{path_under, under};

verus! {

/// The keys a configuration holds; any other key in the file is dropped.
pub open spec fn config_keys() -> Seq<Seq<char>> {
    seq!["bundle_channel"@, "bundle_version"@, "uid_range_start"@, "uid_range_end"@]
}

/// The first UID of the range reserved for per-app users.
pub const UID_RANGE_START: u32 = 5000;
/// The last UID of that range.
pub const UID_RANGE_END: u32 = 5999;

/// Defaults derived from the work directory.
#[derive(Debug, Clone)]
pub struct Defaults {
    pub work: String,
    pub apps_dir: String,
    pub runtime_dir: String,
    /// Where the runtime bundle is fetched from, minus the version segment.
    pub bundle_channel: String,
    pub bundle_version: String,
    /// Reserved range for per-app system users.
    pub uid_range_start: u32,
    pub uid_range_end: u32,
}

impl Defaults {
    /// The defaults for a work directory and a bundle channel.
    pub fn at(work: &str, bundle_channel: &str) -> (d: Defaults)
        ensures
            d.work@ == work@,
            d.apps_dir@ == under(work@, "apps"@),
            d.runtime_dir@ == under(work@, "runtime"@),
            d.bundle_channel@ == bundle_channel@,
            d.bundle_version@ == "local"@,
            d.uid_range_start == UID_RANGE_START,
            d.uid_range_end == UID_RANGE_END,
    {
        Defaults {
            work: work.to_owned(),
            apps_dir: path_under(work, "apps"),
            runtime_dir: path_under(work, "runtime"),
            bundle_channel: bundle_channel.to_owned(),
            bundle_version: "local".to_owned(),
            uid_range_start: UID_RANGE_START,
            uid_range_end: UID_RANGE_END,
        }
    }
}

/// Session values the app process needs: where to find the Wayland socket
/// and whose desktop it belongs to.
#[derive(Debug, Clone)]
pub struct SessionDefaults {
    pub user_name: String,
    pub user_id: String,
    pub group_id: String,
    pub host_user: String,
    pub xdg_data_home: String,
    pub xdg_runtime_dir: String,
    pub wayland_display: String,
}

} // verus!
