use mosaic::binder::EX_UNSUPPORTED_OPERATION;
use mosaic::device::idmap::code;
use mosaic::device::idmap::Idmap;
use mosaic::device::surfaceflinger::{aidl, legacy, mode_size};
use mosaic::guest::{
    BASE_PROP_FILE, GUEST_TMP_APK, GUEST_VENDOR_PROP, IFACE_CLIPBOARD, IFACE_HARDWARE,
    IFACE_NOTIFICATIONS, IFACE_NOTIFICATION_CALLBACK, IFACE_PLATFORM, IFACE_STATUS_BAR,
    IFACE_USER_MONITOR, OTA_PATH_PREFIX, PRODUCT_PREFIX, PROP_ACTIVE_APPS, PROP_BACKGROUND_START,
    PROP_FILE, PROP_HOST_DATA_PATH, PROP_HOST_GID, PROP_HOST_UID, PROP_HOST_USER,
    PROP_MULTI_WINDOWS, PROP_PULSE_RUNTIME_PATH, PROP_STUB_SENSORS_HAL, PROP_SYSTEM_OTA,
    PROP_TOOLS_VERSION, PROP_UPDATER_DISABLED, PROP_VENDOR_OTA, PROP_WAYLAND_DISPLAY,
    PROP_XDG_RUNTIME_DIR, SENSORD_BIN, SVC_CLIPBOARD, SVC_HARDWARE, SVC_NOTIFICATIONS,
    SVC_PLATFORM, SVC_STATUS_BAR, SVC_USER_MONITOR,
};

fn service() -> Idmap {
    Idmap::new()
}

#[test]
fn it_says_which_interface_it_is() {
    assert_eq!(service().descriptor(), "android.os.IIdmap2");
}

#[test]
fn the_overlay_iterator_is_empty_rather_than_absent() {
    let mut service = service();
    let answer = service.transact(code::ACQUIRE_FABRICATED_OVERLAY_ITERATOR, &[]);
    assert_eq!(answer.objects.len(), 1, "an iterator object");
}

#[test]
fn there_are_no_fabricated_overlays_to_list() {
    let mut service = service();
    let answer = service.transact(code::NEXT_FABRICATED_OVERLAY_INFOS, &[]);
    let count = i32::from_le_bytes(answer.data[..4].try_into().unwrap());
    assert_eq!(count, 0, "an empty array, which is the truth here");
}

#[test]
fn removals_with_nothing_to_remove_succeed() {
    for code in [
        code::DELETE_FABRICATED_OVERLAY,
        code::RELEASE_FABRICATED_OVERLAY_ITERATOR,
        code::REMOVE_IDMAP,
    ] {
        let answer = service().transact(code, &[]);
        assert!(answer.data.is_empty(), "code {} has nothing to say", code);
    }
}

#[test]
fn the_compilers_methods_are_refused_by_name() {
    for code in [code::CREATE_IDMAP, code::GET_IDMAP_PATH, code::VERIFY_IDMAP] {
        let answer = service().transact(code, &[]);
        let status = i32::from_le_bytes(answer.data[..4].try_into().unwrap());
        assert_eq!(status, EX_UNSUPPORTED_OPERATION, "code {} is refused", code);
        assert!(answer.data.len() > 4, "with a reason");
    }
}

#[test]
fn a_refusal_names_the_interface_and_the_method() {
    let answer = service().transact(code::CREATE_IDMAP, &[]);
    let text = "android.os.IIdmap2 method 3 is not implemented";
    assert_eq!(&answer.data[4..8], &(text.len() as i32).to_le_bytes());
    assert_eq!(answer.data[8], b'a');
    assert_eq!(answer.data.len() % 4, 0);
    assert_eq!(&answer.data[answer.data.len() - 4..], &[0, 0, 0, 0]);
}

#[test]
fn a_mode_line_is_read_as_a_size() {
    assert_eq!(mode_size("1920x1080"), Some((1920, 1080)));
    assert_eq!(mode_size("  3840x2160\n"), Some((3840, 2160)));
    assert_eq!(mode_size("garbage"), None);
}

#[test]
fn the_aidl_codes_match_the_bundles_own_libgui() {
    assert_eq!(aidl::GET_PHYSICAL_DISPLAY_IDS, 3);
    assert_eq!(aidl::GET_PHYSICAL_DISPLAY_TOKEN, 5);
    assert_eq!(aidl::GET_DISPLAY_STATE, 8);
    assert_eq!(aidl::GET_DISPLAY_STATS, 7);
}

#[test]
fn the_legacy_codes_are_the_tags_in_the_header() {
    assert_eq!(legacy::BOOT_FINISHED, 1);
    assert_eq!(legacy::CREATE_CONNECTION, 2);
    assert_eq!(legacy::GET_STATIC_DISPLAY_INFO, 3);
    assert_eq!(legacy::CREATE_DISPLAY_EVENT_CONNECTION, 4);
    assert_eq!(legacy::GET_COMPOSITION_PREFERENCE, 27);
    assert_eq!(legacy::GET_PROTECTED_CONTENT_SUPPORT, 32);
    assert_eq!(legacy::GET_DISPLAY_NATIVE_PRIMARIES, 34);
    assert_eq!(legacy::GET_DESIRED_DISPLAY_MODE_SPECS, 39);
    assert_eq!(legacy::GET_GPU_CONTEXT_PRIORITY, 53);
    assert_eq!(legacy::GET_MAX_ACQUIRED_BUFFER_COUNT, 54);
    assert_eq!(legacy::GET_DYNAMIC_DISPLAY_INFO, 55);
    assert_eq!(legacy::GET_DISPLAY_DECORATION_SUPPORT, 67);
}

#[test]
fn guest_contract_uses_waydroid_names() {
    assert_eq!(IFACE_PLATFORM, "lineageos.waydroid.IPlatform");
    assert_eq!(IFACE_STATUS_BAR, "lineageos.waydroid.IStatusBarService");
    assert_eq!(IFACE_HARDWARE, "lineageos.waydroid.IHardware");
    assert_eq!(IFACE_CLIPBOARD, "lineageos.waydroid.IClipboard");
    assert_eq!(IFACE_NOTIFICATIONS, "lineageos.waydroid.INotifications");
    assert_eq!(IFACE_USER_MONITOR, "lineageos.waydroid.IUserMonitor");
    assert_eq!(
        IFACE_NOTIFICATION_CALLBACK,
        "lineageos.waydroid.INotifications.INotificationCallback"
    );

    assert_eq!(SVC_PLATFORM, "waydroidplatform");
    assert_eq!(SVC_STATUS_BAR, "waydroidstatusbar");
    assert_eq!(SVC_HARDWARE, "waydroidhardware");
    assert_eq!(SVC_CLIPBOARD, "waydroidclipboard");
    assert_eq!(SVC_NOTIFICATIONS, "waydroidnotifications");
    assert_eq!(SVC_USER_MONITOR, "waydroidusermonitor");

    for prop in [
        PROP_HOST_USER,
        PROP_HOST_UID,
        PROP_HOST_GID,
        PROP_HOST_DATA_PATH,
        PROP_BACKGROUND_START,
        PROP_XDG_RUNTIME_DIR,
        PROP_PULSE_RUNTIME_PATH,
        PROP_WAYLAND_DISPLAY,
        PROP_STUB_SENSORS_HAL,
        PROP_SYSTEM_OTA,
        PROP_VENDOR_OTA,
        PROP_UPDATER_DISABLED,
        PROP_TOOLS_VERSION,
        PROP_ACTIVE_APPS,
    ] {
        assert!(prop.starts_with("waydroid."), "{} must keep the guest name", prop);
    }
    assert_eq!(PROP_MULTI_WINDOWS, "persist.waydroid.multi_windows");

    assert_eq!(PROP_FILE, "waydroid.prop");
    assert_eq!(BASE_PROP_FILE, "waydroid_base.prop");
    assert_eq!(GUEST_VENDOR_PROP, "/vendor/waydroid.prop");
    assert_eq!(GUEST_TMP_APK, "/data/waydroid_tmp/base.apk");
    assert_eq!(SENSORD_BIN, "waydroid-sensord");
    assert_eq!(PRODUCT_PREFIX, "ro.product.waydroid.");
    assert_eq!(OTA_PATH_PREFIX, "waydroid_");
}
