use mosaic::binder::parcel::{args_after, args_would_overrun, Reader};
use mosaic::device::installd::{
    code, join_path, AppDirs, Created, Installd, SizeQuery, Work, EX_UNSUPPORTED_OPERATION, IINSTALLD,
};

/// A request as the shim forwards it: the AIDL header, the interface token, then
/// the arguments.
fn request(args: &[u8]) -> Vec<u8> {
    let mut data = vec![0x00, 0x00, 0x00, 0x80, 0xff, 0xff, 0xff, 0xff];
    data.extend_from_slice(b"TSYS");
    let descriptor = IINSTALLD;
    let count = (descriptor.len() + 1) as i32;
    data.extend_from_slice(&count.to_le_bytes());
    for unit in descriptor.encode_utf16() {
        data.extend_from_slice(&unit.to_le_bytes());
    }
    data.extend_from_slice(&[0, 0]);
    while data.len() % 4 != 0 {
        data.push(0);
    }
    data.extend_from_slice(args);
    data
}

/// A string16 as libbinder writes one: a length that excludes the terminator,
/// the units, the terminator, then padding to four bytes.
fn string16(text: &str) -> Vec<u8> {
    let mut out = Vec::new();
    let units: Vec<u16> = text.encode_utf16().collect();
    out.extend_from_slice(&(units.len() as i32).to_le_bytes());
    for unit in &units {
        out.extend_from_slice(&unit.to_le_bytes());
    }
    out.extend_from_slice(&[0, 0]);
    while out.len() % 4 != 0 {
        out.push(0);
    }
    out
}

fn null_string() -> Vec<u8> {
    (-1i32).to_le_bytes().to_vec()
}

const ROOT: &str = "/srv/bundle";

fn plan(code: u32, args: &[u8]) -> Work {
    let data = request(args);
    assert!(!args_would_overrun(&data, IINSTALLD));
    Installd::new(ROOT).plan(code, &data)
}

#[test]
fn the_arguments_of_a_create_app_data_request_are_read_in_order() {
    let mut args = Vec::new();
    args.extend_from_slice(&null_string());
    args.extend_from_slice(&string16("org.example.notes"));
    args.extend_from_slice(&7i32.to_le_bytes()); // userId
    args.extend_from_slice(&9i32.to_le_bytes()); // flags
    args.extend_from_slice(&0i32.to_le_bytes()); // appId
    let request = request(&args);
    let body = args_after(&request, IINSTALLD);
    let mut reader = Reader::new(body);
    reader.parcelable_present();
    assert_eq!(reader.string(), None, "a null uuid");
    assert_eq!(reader.string().as_deref(), Some("org.example.notes"));
    assert_eq!(reader.i32(), 7);
    assert_eq!(reader.i32(), 9);
}

#[test]
fn invalidate_mounts_is_answered_rather_than_refused() {
    // A void method with nothing to do: no work, and an empty answer.
    assert_eq!(plan(code::INVALIDATE_MOUNTS, &[]), Work::Nothing);
}

#[test]
fn create_app_data_makes_the_directory_the_framework_reads_from() {
    let package = "org.example.notes";
    let mut args = Vec::new();
    args.extend_from_slice(&null_string()); // uuid
    args.extend_from_slice(&string16(package));
    for _ in 0..4 {
        args.extend_from_slice(&0i32.to_le_bytes()); // userId, flags, appId, previousAppId
    }
    args.extend_from_slice(&string16("default")); // seInfo
    args.extend_from_slice(&30i32.to_le_bytes()); // targetSdkVersion

    let work = plan(code::CREATE_APP_DATA, &args);
    let dirs = match work {
        Work::CreateAppData(Some(dirs)) => dirs,
        other => panic!("expected a directory to create, got {:?}", other),
    };
    assert_eq!(dirs.main, "/srv/bundle/data/data/org.example.notes");
    assert_eq!(dirs.user, "/srv/bundle/data/user/0/org.example.notes");
    assert_eq!(dirs.user_de, "/srv/bundle/data/user_de/0/org.example.notes");

    let reply = Installd::created_reply(&Some(Created::Inode(4242)));
    let inode = i64::from_le_bytes(reply[..8].try_into().unwrap());
    assert!(inode > 0, "the inode of the directory that was created");
}

#[test]
fn get_app_size_returns_six_values_per_package() {
    let mut args = Vec::new();
    args.extend_from_slice(&null_string());
    args.extend_from_slice(&1i32.to_le_bytes()); // one package name
    args.extend_from_slice(&string16("org.example.notes"));
    args.extend_from_slice(&0i32.to_le_bytes()); // userId
    args.extend_from_slice(&0i32.to_le_bytes()); // flags
    args.extend_from_slice(&0i32.to_le_bytes()); // appId
    args.extend_from_slice(&0i32.to_le_bytes()); // no ceDataInodes
    args.extend_from_slice(&0i32.to_le_bytes()); // no code paths

    let work = plan(code::GET_APP_SIZE, &args);
    assert_eq!(
        work,
        Work::Sizes(vec![SizeQuery {
            code: None,
            data: "/srv/bundle/data/data/org.example.notes".to_string(),
        }])
    );
    // The data size is the file's allocated blocks, so it is not zero.
    let reply = Installd::sizes_reply(&vec![(0, 4096)]);
    assert_eq!(i32::from_le_bytes(reply[..4].try_into().unwrap()), 6);
    assert_eq!(reply.len(), 4 + 6 * 8);
    let data_size = i64::from_le_bytes(reply[4 + 8..12 + 8].try_into().unwrap());
    assert!(data_size > 0, "the app's data is counted");
}

#[test]
fn an_unimplemented_method_is_refused_with_a_message() {
    assert_eq!(plan(19, &[]), Work::Refused(19));
    let reply = Installd::refusal(19);
    assert_eq!(
        i32::from_le_bytes(reply[..4].try_into().unwrap()),
        EX_UNSUPPORTED_OPERATION
    );
    let count = i32::from_le_bytes(reply[4..8].try_into().unwrap());
    assert!(count > 0, "the message is written, not left off");
}

#[test]
fn destroy_app_data_removes_the_directories() {
    let package = "org.example.notes";
    let mut args = Vec::new();
    args.extend_from_slice(&null_string());
    args.extend_from_slice(&string16(package));
    args.extend_from_slice(&0i32.to_le_bytes());
    args.extend_from_slice(&0i32.to_le_bytes());
    args.extend_from_slice(&0i64.to_le_bytes());
    assert_eq!(
        plan(code::DESTROY_APP_DATA, &args),
        Work::RemoveTrees(vec![
            "/srv/bundle/data/data/org.example.notes".to_string(),
            "/srv/bundle/data/user/0/org.example.notes".to_string(),
        ])
    );
}

#[test]
fn a_refusal_names_the_method_in_full() {
    let reply = Installd::refusal(19);
    let text = "installd method 19 is not implemented";
    assert_eq!(i32::from_le_bytes(reply[4..8].try_into().unwrap()), text.len() as i32);
    let units: Vec<u16> = reply[8..8 + 2 * text.len()]
        .chunks(2)
        .map(|pair| u16::from_le_bytes([pair[0], pair[1]]))
        .collect();
    assert_eq!(String::from_utf16(&units).unwrap(), text);
    // terminator, padding to four, then the empty stack trace header
    let written = 8 + 2 * text.len() + 2;
    assert_eq!(reply.len(), (written + 3) / 4 * 4 + 4);
    assert_eq!(&reply[reply.len() - 4..], &[0, 0, 0, 0]);
}

#[test]
fn a_result_is_a_length_that_covers_itself_then_the_fields() {
    let reply = Installd::created_reply(&Some(Created::Inode(5)));
    assert_eq!(
        reply,
        vec![24, 0, 0, 0, 5, 0, 0, 0, 0, 0, 0, 0, 0, 0, 0, 0, 0, 0, 0, 0, 0, 0, 0, 0]
    );

    let failed = Installd::created_reply(&Some(Created::Failed("no".to_string())));
    assert_eq!(i64::from_le_bytes(failed[4..12].try_into().unwrap()), 0);
    assert_eq!(i32::from_le_bytes(failed[12..16].try_into().unwrap()), EX_UNSUPPORTED_OPERATION);
    assert_eq!(i32::from_le_bytes(failed[16..20].try_into().unwrap()), 2);

    let nothing = Installd::created_reply(&None);
    assert_eq!(i64::from_le_bytes(nothing[4..12].try_into().unwrap()), 0);
}

#[test]
fn a_batch_is_counted_and_each_request_is_read_in_turn() {
    let mut args = Vec::new();
    args.extend_from_slice(&2i32.to_le_bytes());
    for (package, user) in [("org.example.one", 3i32), ("", 0)] {
        args.extend_from_slice(&1i32.to_le_bytes()); // present
        args.extend_from_slice(&null_string());
        args.extend_from_slice(&string16(package));
        args.extend_from_slice(&user.to_le_bytes());
        for _ in 0..3 {
            args.extend_from_slice(&0i32.to_le_bytes());
        }
        args.extend_from_slice(&null_string());
        args.extend_from_slice(&30i32.to_le_bytes());
    }
    let work = plan(code::CREATE_APP_DATA_BATCHED, &args);
    assert_eq!(
        work,
        Work::CreateAppDataBatched(vec![
            Some(AppDirs {
                main: "/srv/bundle/data/data/org.example.one".to_string(),
                user: "/srv/bundle/data/user/3/org.example.one".to_string(),
                user_de: "/srv/bundle/data/user_de/3/org.example.one".to_string(),
            }),
            None,
        ])
    );
    let reply = Installd::batched_reply(&vec![Some(Created::Inode(5)), None]);
    assert_eq!(i32::from_le_bytes(reply[0..4].try_into().unwrap()), 2);
    assert_eq!(reply.len(), 4 + 2 * 24);
}

#[test]
fn the_other_requests_name_their_directories() {
    assert_eq!(plan(code::CREATE_USER_DATA, &{
        let mut a = null_string();
        a.extend_from_slice(&(-4i32).to_le_bytes());
        a
    }), Work::MakeDir("/srv/bundle/data/user/-4".to_string()));
    assert_eq!(
        plan(code::RM_DEX, &string16("/data/app/x")),
        Work::RemoveTrees(vec!["/data/app/x/oat".to_string()])
    );
    assert_eq!(
        plan(code::DESTROY_APP_PROFILES, &string16("org.example.notes")),
        Work::RemoveTrees(vec!["/srv/bundle/data/misc/profiles/org.example.notes".to_string()])
    );
    assert_eq!(plan(code::DESTROY_APP_PROFILES, &null_string()), Work::Nothing);
    let mut link = null_string();
    link.extend_from_slice(&string16("org.example.notes"));
    assert_eq!(
        plan(code::LINK_NATIVE_LIBRARY_DIRECTORY, &link),
        Work::MakeDir("/srv/bundle/data/data/org.example.notes/lib".to_string())
    );
    assert_eq!(plan(code::RESTORECON_APP_DATA, &[]), Work::Nothing);
}

#[test]
fn a_path_joins_like_the_standard_library() {
    assert_eq!(join_path("/a", "b"), "/a/b");
    assert_eq!(join_path("/a/", "b"), "/a/b");
    assert_eq!(join_path("", "b"), "b");
    assert_eq!(join_path("/a", "/b"), "/b");
    assert_eq!(join_path("/a", ""), "/a/");
}
