//! The D-Bus names the container service is reached by.

use vstd::prelude::*;

verus! {

/// The object path of the container manager.
pub fn dbus_container_service_path() -> (r: &'static str)
    ensures
        r@ == "/ContainerManager"@,
{
    "/ContainerManager"
}

/// The interface of the container manager.
pub fn dbus_container_interface() -> (r: &'static str)
    ensures
        r@ == "id.mosaic.ContainerManager"@,
{
    "id.mosaic.ContainerManager"
}

} // verus!
