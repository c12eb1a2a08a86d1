//! The device layer: the services an Android device runs outside the
//! framework, which the framework nonetheless expects to find by name. A
//! desktop is not a device, so each of these answers rather than does.

pub mod apex;
pub mod display;
pub mod health;
pub mod idmap;
pub mod installd;
pub mod surfaceflinger;
pub mod suspend;
