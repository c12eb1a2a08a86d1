use mosaic::binder::parcel::{Reader, BINDER_TYPE_BINDER};
use mosaic::binder::{Handed, Hosted};
use mosaic::device::display::code as display_code;
use mosaic::device::display::{DisplayManager, COLOR_SPACE_SRGB, DEFAULT_DISPLAY, TYPE_EXTERNAL};
use mosaic::device::surfaceflinger::{
    aidl, event, legacy, Display, DisplayEventConnection, SurfaceFlinger, AIDL, COLOR_MODE_NATIVE,
    CONNECTION_TYPE_EXTERNAL, DATASPACE_SRGB, EX_UNSUPPORTED_OPERATION, LEGACY, PIXEL_FORMAT_RGBA_8888,
    ROTATION_0,
};

fn request(descriptor: &str, args: &[u8]) -> Vec<u8> {
    let mut data = vec![0x00, 0x00, 0x00, 0x80, 0xff, 0xff, 0xff, 0xff];
    data.extend_from_slice(b"TSYS");
    let count = (descriptor.len() + 1) as i32;
    data.extend_from_slice(&count.to_le_bytes());
    for unit in descriptor.encode_utf16() {
        data.extend_from_slice(&unit.to_le_bytes());
    }
    data.extend_from_slice(&[0, 0]);
    while data.len() % 4 != 0 {
        data.push(0);
    }
    data.extend_from_slice(args);
    data
}

/// The display the tests describe: 1920x1080 at 60 Hz.
fn display() -> Display {
    Display {
        id: 1 << 32,
        width: 1920,
        height: 1080,
        refresh_bits: 60.0f32.to_bits(),
        frame_period_ns: (1e9f32 / 60.0f32) as i64,
        connector: "card1-eDP-1".to_string(),
    }
}

fn f32_of(reader: &mut Reader) -> f32 {
    f32::from_bits(reader.i32() as u32)
}

fn display_service() -> DisplayManager {
    DisplayManager::reporting(vec![display()])
}

fn service() -> SurfaceFlinger {
    SurfaceFlinger::reporting(vec![display()], AIDL)
}

#[test]
fn the_display_ids_are_logical_and_the_info_describes_them() {
    let mut service = display_service();
    let ids = service.answer(display_code::GET_DISPLAY_IDS, &[]).data;
    let mut reader = Reader::new(&ids);
    assert_eq!(reader.i32s(), vec![DEFAULT_DISPLAY]); // the count, then the ids

    let mut args = DEFAULT_DISPLAY.to_le_bytes().to_vec();
    args.extend_from_slice(&0u32.to_le_bytes()); // includeDisabled
    let info = service.answer(display_code::GET_DISPLAY_INFO, &args).data;
    let mut reader = Reader::new(&info);
    assert_eq!(reader.i32(), 1, "the DisplayInfo is present");
    assert_eq!(reader.i32(), 0); // layerStack
    assert_eq!(reader.i32(), 0); // flags
    assert_eq!(reader.i32(), TYPE_EXTERNAL);
    assert_eq!(reader.i32(), DEFAULT_DISPLAY);
    assert_eq!(reader.i32(), 0); // displayGroupId
    assert_eq!(reader.i32(), -1); // address: null
    assert_eq!(reader.i32(), -1); // deviceProductInfo: null
    assert_eq!(reader.string8().as_deref(), Some("card1-eDP-1"));
    assert_eq!(reader.i32(), 1920); // appWidth
    assert_eq!(reader.i32(), 1080); // appHeight
}

#[test]
fn the_stable_size_and_the_color_space_id_are_values() {
    let mut service = display_service();
    let size = service.answer(display_code::GET_STABLE_DISPLAY_SIZE, &[]).data;
    let mut reader = Reader::new(&size);
    assert_eq!(reader.i32(), 1); // the Point is present
    assert_eq!(reader.i32(), 1920, "the Point's x");
    assert_eq!(reader.i32(), 1080);

    let space = service
        .answer(display_code::GET_PREFERRED_WIDE_GAMUT_COLOR_SPACE_ID, &[])
        .data;
    let mut reader = Reader::new(&space);
    assert_eq!(reader.i32(), COLOR_SPACE_SRGB);
}

#[test]
fn setting_brightness_is_accepted_not_refused() {
    let mut service = display_service();
    for code in [
        display_code::SET_TEMPORARY_AUTO_BRIGHTNESS_ADJUSTMENT,
        display_code::SET_TEMPORARY_BRIGHTNESS,
        display_code::SET_BRIGHTNESS,
    ] {
        let answer = service.answer(code, &[]).data;
        assert!(
            answer.is_empty(),
            "code {code} answered {} bytes",
            answer.len()
        );
    }
}

#[test]
fn a_virtual_display_is_refused() {
    let mut service = display_service();
    let answer = service.answer(display_code::CREATE_VIRTUAL_DISPLAY, &[]).data;
    let mut reader = Reader::new(&answer);
    assert_eq!(reader.i32(), -7);
}

#[test]
fn the_display_info_ends_with_the_unique_id_and_the_brightness_range() {
    let info = DisplayManager::display_info(&display(), 0);
    // The unique id is the connector behind a prefix; the brightness range is
    // 0 to 1 with a default of one half, and nothing follows the orientation.
    let tail = &info[info.len() - 32..];
    let mut reader = Reader::new(tail);
    assert_eq!(reader.i32(), 0); // removeMode
    assert_eq!(f32_of(&mut reader), 0.0); // no refresh rate override
    assert_eq!(f32_of(&mut reader), 0.0);
    assert_eq!(f32_of(&mut reader), 1.0);
    assert_eq!(f32_of(&mut reader), 0.5);
    assert!(info.windows(18).any(|w| w == b"mosaic:card1-eDP-1"));
}

#[test]
fn a_display_that_is_not_there_gets_a_null_display_info() {
    let mut service = display_service();
    let info = service
        .answer(display_code::GET_DISPLAY_INFO, &3i32.to_le_bytes())
        .data;
    assert_eq!(info, vec![0, 0, 0, 0]);
    let brightness = service.answer(display_code::GET_BRIGHTNESS, &[]).data;
    assert_eq!(brightness, 0.5f32.to_le_bytes().to_vec());
}

#[test]
fn display_ids_are_listed_and_the_primary_one_is_first() {
    let mut service = service();
    let reply = service
        .transact(aidl::GET_PHYSICAL_DISPLAY_IDS, &request(AIDL, &[]))
        .data;
    let mut reader = Reader::new(&reply);
    assert_eq!(reader.i32(), 1); // one display
    assert_eq!(reader.i64(), 1 << 32);

    let reply = service
        .transact(aidl::GET_PRIMARY_PHYSICAL_DISPLAY_ID, &request(AIDL, &[]))
        .data;
    let mut reader = Reader::new(&reply);
    // The display id alone: no status in front of it.
    assert_eq!(reader.i64(), 1 << 32);
}

#[test]
fn a_display_token_is_handed_back_as_an_object() {
    let mut service = service();
    let args = (1i64 << 32).to_le_bytes();
    let answer = service.transact(aidl::GET_PHYSICAL_DISPLAY_TOKEN, &request(AIDL, &args));
    // The status, then the object word the broker fills in.
    assert_eq!(answer.data.len(), 28);
    assert_eq!(answer.objects.len(), 1);
    assert_eq!(
        answer.objects[0].offset, 0,
        "the status word is the shim's, not the service's"
    );
    // Two calls for the same display give the same object, not two that mean
    // the same thing: the framework keeps the token and hands it back.
    let again = service.transact(aidl::GET_PHYSICAL_DISPLAY_TOKEN, &request(AIDL, &args));
    assert_eq!(again.objects.len(), 1);
    match (&answer.objects[0].object, &again.objects[0].object) {
        (Handed::New { key: Some(a), object: Hosted::DisplayToken { id } }, Handed::New { key: Some(b), .. }) => {
            assert_eq!(a, b);
            assert_eq!(a, "SurfaceFlinger:token:4294967296");
            assert_eq!(*id, 1 << 32);
        }
        _ => panic!("expected a keyed display token"),
    }
}

#[test]
fn a_display_that_is_not_there_gets_a_null_token() {
    let mut service = service();
    let args = 7i64.to_le_bytes();
    let answer = service.transact(aidl::GET_PHYSICAL_DISPLAY_TOKEN, &request(AIDL, &args));
    assert!(answer.objects.is_empty());
    // A null binder: the object word is there, and says it is nothing.
    assert_eq!(answer.data.len(), 28);
    assert_eq!(&answer.data[..4], &BINDER_TYPE_BINDER.to_le_bytes());
    assert!(answer.data[4..].iter().all(|byte| *byte == 0));
}

#[test]
fn the_composition_preference_is_srgb_and_says_so() {
    let mut service = service();
    let reply = service
        .transact(legacy::GET_COMPOSITION_PREFERENCE, &request(LEGACY, &[]))
        .data;
    let mut reader = Reader::new(&reply);
    assert_eq!(reader.i32(), 0); // NO_ERROR, or the reader stops here
    assert_eq!(reader.i32(), DATASPACE_SRGB);
    assert_eq!(reader.i32(), PIXEL_FORMAT_RGBA_8888);
    assert_eq!(reader.i32(), DATASPACE_SRGB);
    assert_eq!(reader.i32(), PIXEL_FORMAT_RGBA_8888);
}

#[test]
fn the_static_display_info_has_the_fields_libui_writes() {
    let service = service();
    let bytes = service.static_display_info(&display());
    // connectionType, density, secure, deviceProductInfo (absent), rotation.
    assert_eq!(bytes.len(), 5 * 4);
    let mut reader = Reader::new(&bytes);
    assert_eq!(reader.i32(), CONNECTION_TYPE_EXTERNAL);
    assert_eq!(f32_of(&mut reader), 160.0);
    assert_eq!(reader.i32(), 0); // not secure
    assert_eq!(reader.i32(), 0); // no product info
    assert_eq!(reader.i32(), ROTATION_0);
}

#[test]
fn the_dynamic_display_info_carries_one_mode_and_no_hdr() {
    let service = service();
    let bytes = service.dynamic_display_info(&display());
    let mut reader = Reader::new(&bytes);
    assert_eq!(reader.i64(), 1); // one supported mode, counted in eight bytes
    assert_eq!(reader.i32(), 0); // its id
    assert_eq!(reader.i32(), 1920);
    assert_eq!(reader.i32(), 1080);
    let _x_dpi = reader.i32();
    let _y_dpi = reader.i32();
    assert_eq!(f32_of(&mut reader), 60.0); // refreshRate
    assert_eq!(reader.i64(), 0);
    assert_eq!(reader.i64(), 0);
    assert_eq!(reader.i64(), 0);
    assert_eq!(reader.i32(), 0); // group
    assert_eq!(reader.i32(), 0); // activeDisplayModeId
    assert_eq!(reader.i64(), 1); // one color mode, counted in eight bytes
    assert_eq!(reader.i32(), COLOR_MODE_NATIVE);
    assert_eq!(reader.i32(), COLOR_MODE_NATIVE); // active
    assert_eq!(reader.i32(), 0); // no HDR types
    assert_eq!(f32_of(&mut reader), 0.0); // maxLuminance
    assert_eq!(f32_of(&mut reader), 0.0); // maxAverageLuminance
    assert_eq!(f32_of(&mut reader), 0.0); // minLuminance
    assert_eq!(reader.i8(), 0); // auto low latency, one byte
    assert_eq!(reader.i8(), 0); // game content type, one byte
    assert_eq!(reader.i32(), 0); // preferred boot mode: the one supported mode
}

#[test]
fn a_display_event_connection_hands_over_a_channel() {
    let mut connection = DisplayEventConnection::new();
    let answer = connection.transact(event::STEAL_RECEIVE_CHANNEL, &[]);
    // The presence word, then two 24-byte descriptor objects: the receive
    // channel and the send one, in the order `BitTube::writeToParcel` writes
    // them.
    assert_eq!(answer.data.len(), 4 + 24 + 24);
    assert_eq!(
        answer.objects.len(),
        0,
        "a descriptor is not a binder object"
    );
    assert_eq!(answer.fds.len(), 2);
    assert_eq!(
        answer.fds[0], 4,
        "the presence word, then the first descriptor"
    );
    assert_eq!(answer.fds[1], 28);
    // A second steal gets nothing: the channel has one read end.
    let again = connection.transact(event::STEAL_RECEIVE_CHANNEL, &[]);
    assert!(again.fds.is_empty());
}

#[test]
fn a_request_for_the_other_interface_is_answered_from_the_other_code_space() {
    let mut service = service();
    let legacy = service.transact(1, &request(LEGACY, &[]));
    assert!(legacy.data.is_empty(), "bootFinished answers nothing");

    let aidl = service.transact(1, &request(AIDL, &[]));
    assert!(!aidl.data.is_empty(), "createDisplay is refused, by name");
    let mut reader = Reader::new(&aidl.data);
    assert_eq!(reader.i32(), EX_UNSUPPORTED_OPERATION);
}

#[test]
fn desired_display_mode_specs_keep_the_native_field_order() {
    let mut service = service();
    let reply = service
        .transact(
            legacy::GET_DESIRED_DISPLAY_MODE_SPECS,
            &request(LEGACY, &[]),
        )
        .data;
    let mut reader = Reader::new(&reply);
    assert_eq!(reader.i32(), 0);
    assert_eq!(f32_of(&mut reader), 60.0);
    assert_eq!(f32_of(&mut reader), 60.0);
    assert_eq!(f32_of(&mut reader), 60.0);
    assert_eq!(f32_of(&mut reader), 60.0);
    assert_eq!(reader.i32(), 0, "allowGroupSwitching is the final field");
}

#[test]
fn the_display_stats_carry_the_frame_period() {
    let mut service = service();
    let reply = service
        .transact(aidl::GET_DISPLAY_STATS, &request(AIDL, &[]))
        .data;
    let mut reader = Reader::new(&reply);
    assert_eq!(reader.i64(), 0);
    assert_eq!(reader.i64(), 16666667);
    let state = service
        .transact(aidl::GET_DISPLAY_STATE, &request(AIDL, &[]))
        .data;
    assert_eq!(state, vec![2, 0, 0, 0]);
}

#[test]
fn a_connection_and_an_event_connection_are_handed_as_new_objects() {
    let mut service = service();
    let connection = service.transact(legacy::CREATE_CONNECTION, &request(LEGACY, &[]));
    assert_eq!(connection.objects.len(), 1);
    assert!(matches!(
        connection.objects[0].object,
        Handed::New { key: None, object: Hosted::ComposerConnection }
    ));
    let events = service.transact(legacy::CREATE_DISPLAY_EVENT_CONNECTION, &request(LEGACY, &[]));
    assert!(matches!(
        events.objects[0].object,
        Handed::New { key: None, object: Hosted::DisplayEventConnection }
    ));
    let unknown = service.transact(1, &request("android.something.Else", &[]));
    let mut reader = Reader::new(&unknown.data);
    assert_eq!(reader.i32(), EX_UNSUPPORTED_OPERATION);
}
