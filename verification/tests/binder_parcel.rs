use mosaic::binder::parcel::{
    args_after, args_would_overrun, carries_token, java_call, Parcel, Reader, BINDER_TYPE_BINDER, BINDER_TYPE_HANDLE,
    STABILITY_SYSTEM,
};
use mosaic::binder::Handle;

#[test]
fn handle_carries_owner() {
    let h = Handle::new(3, 5000);
    assert_eq!(h.node, 3);
    assert_eq!(h.owner, 5000);
}

#[test]
fn a_string16_is_a_count_units_a_terminator_and_padding() {
    // Four units: 4 + 8 + 2 -> padded to 16.
    let mut parcel = Parcel::new();
    parcel.string16("abcd");
    let bytes = parcel.into_bytes();
    assert_eq!(bytes.len() % 4, 0);
    assert_eq!(&bytes[..4], &4i32.to_le_bytes());
    assert_eq!(&bytes[4..6], &[b'a', 0]);
    assert_eq!(&bytes[bytes.len() - 4..], &[0, 0, 0, 0]);
}

#[test]
fn a_null_binder_is_a_type_and_two_zero_pointers_and_a_stability_word() {
    let mut parcel = Parcel::new();
    parcel.null_binder();
    let bytes = parcel.into_bytes();
    assert_eq!(bytes.len(), 28);
    assert_eq!(&bytes[..4], &BINDER_TYPE_BINDER.to_le_bytes());
    assert!(bytes[4..].iter().all(|byte| *byte == 0));
}

#[test]
fn a_handle_carries_its_number_and_a_declared_stability() {
    let mut parcel = Parcel::new();
    parcel.handle_binder(17);
    let bytes = parcel.into_bytes();
    assert_eq!(&bytes[..4], &BINDER_TYPE_HANDLE.to_le_bytes());
    assert_eq!(&bytes[8..12], &17u32.to_le_bytes());
    assert_eq!(&bytes[24..28], &STABILITY_SYSTEM.to_le_bytes());
}

#[test]
fn a_handle_binder_reports_where_it_starts() {
    let mut parcel = Parcel::new();
    parcel.ok();
    let offset = parcel.handle_binder(3);
    assert_eq!(offset, 4);
    assert_eq!(parcel.into_bytes().len(), 32);
}

#[test]
fn a_descriptor_placeholder_is_twenty_four_bytes() {
    let mut parcel = Parcel::new();
    let first = parcel.fd_placeholder();
    let second = parcel.fd_placeholder();
    assert_eq!(first, 0);
    assert_eq!(second, 24);
    assert_eq!(parcel.into_bytes(), vec![0u8; 48]);
}

#[test]
fn a_java_call_starts_with_the_header_and_the_descriptor() {
    let data = java_call("a.B", &[9, 9, 9, 9]);
    assert_eq!(&data[..12], &[0x00, 0x00, 0x00, 0x80, 0xff, 0xff, 0xff, 0xff, b'T', b'S', b'Y', b'S']);
    assert_eq!(&data[12..16], &4i32.to_le_bytes());
    assert_eq!(&data[16..22], &[b'a', 0, b'.', 0, b'B', 0]);
    assert_eq!(&data[22..24], &[0, 0]);
    assert_eq!(&data[24..], &[9, 9, 9, 9]);
}

#[test]
fn a_token_is_found_by_its_text() {
    let data = java_call("x.Y", &[1, 0, 0, 0]);
    assert!(carries_token(&data, "x.Y"));
    assert!(!carries_token(&data, "x.Z"));
    assert!(!carries_token(&data, ""));
}

#[test]
fn arguments_start_after_the_padded_token() {
    let data = java_call("x.Y", &[7, 0, 0, 0, 8, 0, 0, 0]);
    assert_eq!(args_after(&data, "x.Y"), &[7, 0, 0, 0, 8, 0, 0, 0]);
    assert_eq!(args_after(&data, "nope"), &[] as &[u8]);
}

#[test]
fn a_reader_reads_what_a_parcel_wrote() {
    let mut parcel = Parcel::new();
    parcel.i32(-5);
    parcel.i64(1 << 40);
    parcel.string16("hello");
    parcel.i32(2);
    parcel.i64(10);
    parcel.i64(20);
    let bytes = parcel.into_bytes();
    let mut reader = Reader::new(&bytes);
    assert_eq!(reader.i32(), -5);
    assert_eq!(reader.i64(), 1 << 40);
    assert_eq!(reader.string(), Some("hello".to_string()));
    assert_eq!(reader.i64s(), vec![10, 20]);
    assert_eq!(reader.i32(), 0, "a short buffer reads as zero");
    assert!(reader.rest().is_empty());
}

#[test]
fn a_null_string_is_a_count_of_minus_one() {
    let mut parcel = Parcel::new();
    parcel.i32(-1);
    parcel.i32(7);
    let bytes = parcel.into_bytes();
    let mut reader = Reader::new(&bytes);
    assert_eq!(reader.string(), None);
    assert_eq!(reader.i32(), 7);
}

#[test]
fn a_string8_is_a_byte_count_and_padding() {
    let bytes = [3u8, 0, 0, 0, b'a', b'b', b'c', 0, 5, 0, 0, 0];
    let mut reader = Reader::new(&bytes);
    assert_eq!(reader.string8(), Some("abc".to_string()));
    assert_eq!(reader.i32(), 5);
}

#[test]
fn a_parcelable_flag_is_consumed_only_when_present() {
    let bytes = [1u8, 0, 0, 0, 4, 0, 0, 0];
    let mut reader = Reader::new(&bytes);
    reader.parcelable_present();
    assert_eq!(reader.i32(), 4);
    let other = [4u8, 0, 0, 0];
    let mut reader = Reader::new(&other);
    reader.parcelable_present();
    assert_eq!(reader.i32(), 4);
}

#[test]
fn an_array_of_strings_skips_the_null_ones() {
    let mut parcel = Parcel::new();
    parcel.i32(3);
    parcel.string16("a");
    parcel.i32(-1);
    parcel.string16("bc");
    let bytes = parcel.into_bytes();
    let mut reader = Reader::new(&bytes);
    assert_eq!(reader.strings(), vec!["a".to_string(), "bc".to_string()]);
}

#[test]
fn the_arguments_are_found_whichever_way_the_count_is_written() {
    // "x.Y" counted without its terminator, as libbinder_ndk's callers may.
    let mut data = vec![0, 0, 0, 0x80, 0xff, 0xff, 0xff, 0xff, b'T', b'S', b'Y', b'S'];
    data.extend_from_slice(&3i32.to_le_bytes());
    data.extend_from_slice(&[b'x', 0, b'.', 0, b'Y', 0, 0, 0]);
    assert_eq!(data.len() % 4, 0);
    data.extend_from_slice(&[5, 0, 0, 0]);
    assert_eq!(args_after(&data, "x.Y"), &[5, 0, 0, 0]);
    let built = java_call("x.Y", &[5, 0, 0, 0]);
    assert_eq!(args_after(&built, "x.Y"), &[5, 0, 0, 0]);
}

#[test]
fn writing_a_parcel_only_adds_at_the_end() {
    let mut p = Parcel::new();
    p.i32(7);
    p.string16("ab");
    let first = p.into_bytes();
    let mut q = Parcel::new();
    q.i32(7);
    q.string16("ab");
    q.boolean(true);
    q.raw(&[9, 9]);
    let second = q.into_bytes();
    assert_eq!(&second[..first.len()], &first[..]);
    assert_eq!(&second[first.len()..], &[1, 0, 0, 0, 9, 9]);
}

#[test]
fn a_count_that_claims_more_than_the_request_holds_gives_no_arguments() {
    let mut tight = vec![0, 0, 0, 0x80, 0xff, 0xff, 0xff, 0xff, b'T', b'S', b'Y', b'S'];
    tight.extend_from_slice(&12i32.to_le_bytes());
    tight.extend_from_slice(&[b'x', 0, b'.', 0, b'Y', 0, 7, 7]);
    assert!(args_would_overrun(&tight, "x.Y"));
    assert_eq!(args_after(&tight, "x.Y"), &[] as &[u8]);
}
