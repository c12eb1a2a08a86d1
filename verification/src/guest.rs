//! Names shared with the Android system image.
//!
//! The guest is a stock Waydroid/LineageOS image, so every name the guest
//! declares or reads keeps Waydroid's spelling. Only host-side names use
//! Mosaic: the binary, the config and log files, the D-Bus bus names, and the
//! host directories under `/var/lib/mosaic`.
//!
//! Changing anything here breaks interoperability with the downloadable
//! images and requires rebuilding the guest.

use vstd::prelude::*;

verus! {

/// Binder interfaces declared by the guest.
pub const IFACE_PLATFORM: &'static str = "lineageos.waydroid.IPlatform";
pub const IFACE_STATUS_BAR: &'static str = "lineageos.waydroid.IStatusBarService";
pub const IFACE_HARDWARE: &'static str = "lineageos.waydroid.IHardware";
pub const IFACE_CLIPBOARD: &'static str = "lineageos.waydroid.IClipboard";
pub const IFACE_NOTIFICATIONS: &'static str = "lineageos.waydroid.INotifications";
pub const IFACE_USER_MONITOR: &'static str = "lineageos.waydroid.IUserMonitor";
pub const IFACE_NOTIFICATION_CALLBACK: &'static str = "lineageos.waydroid.INotifications.INotificationCallback";

/// Binder service names the guest looks up and the host publishes.
pub const SVC_PLATFORM: &'static str = "waydroidplatform";
pub const SVC_STATUS_BAR: &'static str = "waydroidstatusbar";
pub const SVC_HARDWARE: &'static str = "waydroidhardware";
pub const SVC_CLIPBOARD: &'static str = "waydroidclipboard";
pub const SVC_NOTIFICATIONS: &'static str = "waydroidnotifications";
pub const SVC_USER_MONITOR: &'static str = "waydroidusermonitor";

/// Props the guest reads.
pub const PROP_HOST_USER: &'static str = "waydroid.host.user";
pub const PROP_HOST_UID: &'static str = "waydroid.host.uid";
pub const PROP_HOST_GID: &'static str = "waydroid.host.gid";
pub const PROP_HOST_DATA_PATH: &'static str = "waydroid.host_data_path";
pub const PROP_BACKGROUND_START: &'static str = "waydroid.background_start";
pub const PROP_XDG_RUNTIME_DIR: &'static str = "waydroid.xdg_runtime_dir";
pub const PROP_PULSE_RUNTIME_PATH: &'static str = "waydroid.pulse_runtime_path";
pub const PROP_WAYLAND_DISPLAY: &'static str = "waydroid.wayland_display";
pub const PROP_STUB_SENSORS_HAL: &'static str = "waydroid.stub_sensors_hal";
pub const PROP_SYSTEM_OTA: &'static str = "waydroid.system_ota";
pub const PROP_VENDOR_OTA: &'static str = "waydroid.vendor_ota";
pub const PROP_UPDATER_DISABLED: &'static str = "waydroid.updater.disabled";
pub const PROP_TOOLS_VERSION: &'static str = "waydroid.tools_version";
pub const PROP_ACTIVE_APPS: &'static str = "waydroid.active_apps";
pub const PROP_MULTI_WINDOWS: &'static str = "persist.waydroid.multi_windows";

/// Prop files. The guest loads the guest one from `/vendor`.
pub const PROP_FILE: &'static str = "waydroid.prop";
pub const BASE_PROP_FILE: &'static str = "waydroid_base.prop";
pub const GUEST_VENDOR_PROP: &'static str = "/vendor/waydroid.prop";

/// Prop prefix carrying host product identity into the guest.
pub const PRODUCT_PREFIX: &'static str = "ro.product.waydroid.";

/// Image channel path segment. The OTA server serves `waydroid_<arch>`.
pub const OTA_PATH_PREFIX: &'static str = "waydroid_";

/// Directory the guest reads a pushed APK from.
pub const TMP_DIR: &'static str = "waydroid_tmp";
pub const GUEST_TMP_APK: &'static str = "/data/waydroid_tmp/base.apk";

/// Optional host sensor daemon the guest-side HAL replaces.
pub const SENSORD_BIN: &'static str = "waydroid-sensord";

/// Locations that stock image packages install into.
pub const EXTRA_IMAGES_PATHS: [&'static str; 2] = [
    "/etc/waydroid-extra/images",
    "/usr/share/waydroid-extra/images",
];
pub const EXTRA_CHANNELS_CFG: &'static str = "/usr/share/waydroid-extra/channels.cfg";

} // verus!
