use mosaic::helpers::images::{
    build_listed, image_digest, image_listed, image_matches, newer_build, recorded_datetime, update_from, ChannelError, OtaBuild,
};

const EMPTY_SHA256: &str = "e3b0c44298fc1c149afbf4c8996fb92427ae41e4649b934ca495991b7852b855";
const ABC_SHA256: &str = "ba7816bf8f01cfea414140de5dae2223b00361a396177a9cb410ff61f20015ad";

fn build(datetime: i64, id: &str) -> OtaBuild {
    OtaBuild::from_fields(Some(datetime), Some("https://example.org/x.zip".to_string()), None, Some(id.to_string()), "system.zip")
}

#[test]
fn an_entry_without_fields_takes_the_channel_defaults() {
    let b = OtaBuild::from_fields(None, None, None, None, "vendor.zip");
    assert_eq!(b.datetime, 0);
    assert_eq!(b.url, "");
    assert_eq!(b.filename, "vendor.zip");
    assert_eq!(b.id, "");
    let c = OtaBuild::from_fields(Some(7), Some("u".to_string()), Some("f.zip".to_string()), Some("i".to_string()), "system.zip");
    assert_eq!((c.datetime, c.url.as_str(), c.filename.as_str(), c.id.as_str()), (7, "u", "f.zip", "i"));
}

#[test]
fn the_recorded_build_time_reads_as_a_number_or_zero() {
    assert_eq!(recorded_datetime(Some("1700000000")), 1700000000);
    assert_eq!(recorded_datetime(Some("-5")), -5);
    assert_eq!(recorded_datetime(Some("soon")), 0);
    assert_eq!(recorded_datetime(None), 0);
}

#[test]
fn the_first_newer_build_is_taken() {
    let builds = vec![build(10, "a"), build(30, "b"), build(20, "c")];
    assert_eq!(newer_build(&builds, 15), Some(1));
    assert_eq!(newer_build(&builds, 5), Some(0));
    assert_eq!(newer_build(&builds, 30), None);
    assert_eq!(newer_build(&Vec::new(), 0), None);
}

#[test]
fn an_image_digest_is_lowercase_hex_sha256() {
    assert_eq!(image_digest(b""), EMPTY_SHA256);
    assert_eq!(image_digest(b"abc"), ABC_SHA256);
}

#[test]
fn a_listed_build_is_found_by_its_id() {
    let builds = vec![build(1, "x"), build(2, ABC_SHA256)];
    assert!(build_listed(&builds, ABC_SHA256));
    assert!(!build_listed(&builds, EMPTY_SHA256));
    assert!(image_listed(&builds, b"abc"));
    assert!(!image_listed(&builds, b"abd"));
}

#[test]
fn a_download_matches_only_the_build_it_was_fetched_as() {
    assert!(image_matches(&build(1, ABC_SHA256), b"abc"));
    assert!(!image_matches(&build(1, EMPTY_SHA256), b"abc"));
}

#[test]
fn an_empty_channel_is_refused() {
    assert_eq!(update_from(&Vec::new(), 0), Err(ChannelError::NoImages));
    let builds = vec![build(10, "a"), build(30, "b")];
    assert_eq!(update_from(&builds, 15), Ok(Some(1)));
    assert_eq!(update_from(&builds, 30), Ok(None));
}
