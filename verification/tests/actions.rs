use mosaic::actions::initializer::{system_ota_url, vendor_ota_url, vendor_candidates};
use mosaic::actions::initializer::get_vendor_type;
use mosaic::actions::runtime_cmd::{art_version, install_kind, install_version, is_archive, is_url, version_name, InstallKind};
use mosaic::actions::uid_helper::{elevation, helper_outcome, remove_arguments, setup_arguments, user_name};
use mosaic::helpers::run::sudo_command;

#[test]
fn a_bundle_archive_names_its_version() {
    assert_eq!(version_name("runtime-local-x86_64.tar.xz"), Some("local".to_string()));
    assert_eq!(
        version_name("runtime-lineage-20-x86_64.tar.zst"),
        Some("lineage-20".to_string()),
        "a version with a dash in it survives"
    );
    assert_eq!(version_name("system.img"), None);
    assert_eq!(version_name("runtime-.tar.xz"), None);
}

#[test]
fn an_image_is_not_an_archive() {
    assert!(is_archive("/x/runtime-local-x86_64.tar.xz"));
    assert!(is_archive("/x/thing.tar.zst"));
    assert!(!is_archive("/var/lib/mosaic/images/system.img"));
    assert!(!is_archive("/x/vendor.img"));
}

#[test]
fn user_name_is_filesystem_safe() {
    assert_eq!(user_name("com.termux"), "mosaic-com-termux");
    assert_eq!(user_name("org.example.app"), "mosaic-org-example-app");
}

#[test]
fn user_name_is_bounded() {
    let long = "com.example.".repeat(10);
    assert!(user_name(&long).len() <= 31);
}

#[test]
fn user_name_trims_dashes_and_cuts_at_thirty_one() {
    assert_eq!(user_name("..a.b.."), "mosaic-a-b");
    assert_eq!(user_name(&"x".repeat(40)), format!("mosaic-{}", "x".repeat(24)));
}

#[test]
fn the_vendor_type_follows_the_vndk() {
    assert_eq!(get_vendor_type("", ""), "MAINLINE");
    assert_eq!(get_vendor_type("19", ""), "MAINLINE");
    assert_eq!(get_vendor_type("28", ""), "HALIUM_9");
    assert_eq!(get_vendor_type("32", ""), "HALIUM_12L");
    assert_eq!(get_vendor_type("33", "40"), "HALIUM_13");
    assert_eq!(get_vendor_type("", "34"), "HALIUM_14");
    assert_eq!(get_vendor_type("", "30"), "MAINLINE");
    assert_eq!(get_vendor_type("x", "34"), "MAINLINE");
}

#[test]
fn the_ota_channels_are_built_from_their_parts() {
    assert_eq!(
        system_ota_url("https://ota.waydro.id/system", "lineage", "x86_64", "VANILLA"),
        "https://ota.waydro.id/system/lineage/waydroid_x86_64/VANILLA.json"
    );
    assert_eq!(
        vendor_ota_url("https://ota.waydro.id/vendor", "arm64", "HALIUM 13"),
        "https://ota.waydro.id/vendor/waydroid_arm64/HALIUM_13.json"
    );
    assert_eq!(vendor_candidates("", "MAINLINE"), vec!["MAINLINE".to_string()]);
    assert_eq!(
        vendor_candidates("bonito", "MAINLINE"),
        vec!["bonito".to_string(), "MAINLINE".to_string()]
    );
}

fn words(v: &[&str]) -> Vec<String> {
    v.iter().map(|s| s.to_string()).collect()
}

#[test]
fn the_uid_helper_is_told_the_package_uid_and_data_dir() {
    assert_eq!(
        setup_arguments("/w", "com.termux", 10123, Some("/tmp/t.apk"), "/w/data/com.termux"),
        words(&["--work", "/w", "uid-helper", "com.termux", "--uid", "10123", "--data-dir", "/w/data/com.termux", "--apk", "/tmp/t.apk"])
    );
    assert_eq!(
        setup_arguments("/w", "a.b", 0, None, "/d"),
        words(&["--work", "/w", "uid-helper", "a.b", "--uid", "0", "--data-dir", "/d"])
    );
    assert_eq!(
        remove_arguments("/w", "a.b", "/d"),
        words(&["--work", "/w", "uid-helper", "a.b", "--remove", "--data-dir", "/d"])
    );
}

#[test]
fn the_uid_helper_gets_root_the_way_the_host_allows() {
    assert_eq!(elevation(true, true, true, "/bin/m"), Some(words(&["/bin/m"])));
    assert_eq!(elevation(false, true, true, "/bin/m"), Some(words(&["sudo", "-n", "/bin/m"])));
    assert_eq!(elevation(false, false, true, "/bin/m"), Some(words(&["pkexec", "/bin/m"])));
    assert_eq!(elevation(false, false, false, "/bin/m"), None);
}

#[test]
fn a_root_command_runs_under_sudo() {
    assert_eq!(sudo_command(&words(&["kill", "-9", "42"])), words(&["sudo", "kill", "-9", "42"]));
    assert_eq!(sudo_command(&Vec::new()), words(&["sudo"]));
}

#[test]
fn a_refusing_helper_is_quoted_by_its_last_line() {
    assert_eq!(helper_outcome(true, "anything"), Ok(()));
    assert_eq!(
        helper_outcome(false, "warning: x\nuseradd: user exists\n"),
        Err("uid helper refused: useradd: user exists".to_string())
    );
    assert_eq!(helper_outcome(false, "  \n "), Err("uid helper refused: no output".to_string()));
}

#[test]
fn an_install_is_classified_by_what_was_given() {
    assert!(is_url("https://example.org/runtime.tar.xz"));
    assert!(is_url("http://h/x"));
    assert!(!is_url("/srv/http://x"));
    assert_eq!(install_kind("/b", "/b", true), InstallKind::Directory);
    assert_eq!(install_kind("https://h/runtime-local-x86_64.tar.xz", "/cache/abc", false), InstallKind::Archive);
    assert_eq!(install_kind("/x/system.img", "/x/system.img", false), InstallKind::Image);
}

#[test]
fn an_install_takes_the_version_asked_for_or_the_one_named() {
    assert_eq!(install_version("20", Some("runtime-local-x86_64.tar.xz")), "20");
    assert_eq!(install_version("local", Some("runtime-lineage-20-x86_64.tar.zst")), "lineage-20");
    assert_eq!(install_version("local", Some("system.img")), "local");
    assert_eq!(install_version("local", None), "local");
}

#[test]
fn the_art_version_line_is_found() {
    let output = "some noise\n  ART version 2.1.0 x86_64  \nART version later\n";
    assert_eq!(art_version(output), Some("ART version 2.1.0 x86_64".to_string()));
    assert_eq!(art_version("nothing here\n"), None);
}
