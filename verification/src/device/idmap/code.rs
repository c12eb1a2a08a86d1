//! `IIdmap2`'s methods, numbered from one in the order the interface
//! declares them.

use vstd::prelude::*;

verus! {

pub const ACQUIRE_FABRICATED_OVERLAY_ITERATOR: u32 = 1;
pub const CREATE_FABRICATED_OVERLAY: u32 = 2;
pub const CREATE_IDMAP: u32 = 3;
pub const DELETE_FABRICATED_OVERLAY: u32 = 4;
pub const DUMP_IDMAP: u32 = 5;
pub const GET_IDMAP_PATH: u32 = 6;
pub const NEXT_FABRICATED_OVERLAY_INFOS: u32 = 7;
pub const RELEASE_FABRICATED_OVERLAY_ITERATOR: u32 = 8;
pub const REMOVE_IDMAP: u32 = 9;
pub const VERIFY_IDMAP: u32 = 10;

} // verus!
