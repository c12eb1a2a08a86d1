use mosaic::args::{Action, Cli, MosaicArgs, QueryArgs};
use mosaic::config::load::{ini_lookup, load};
use mosaic::config::Defaults;

#[test]
fn a_missing_file_gives_the_defaults() {
    let defaults = Defaults::at("/var/lib/mosaic", "https://example.com/dl");
    let cfg = load(None, &defaults);
    assert_eq!(cfg.bundle_version(None), "local");
    assert_eq!(cfg.uid_range(), (5000, 5999));
    assert_eq!(cfg.bundle_channel(None), "https://example.com/dl");
    assert_eq!(cfg.bundle_version(Some("9")), "9");
    assert_eq!(defaults.apps_dir, "/var/lib/mosaic/apps");
}

#[test]
fn the_mosaic_section_overrides_and_stale_keys_go() {
    let defaults = Defaults::at("/w", "c");
    let text = "[mosaic]\nbundle_version = 42\nuid_range_start = 6000\nrootfs = /var/lib/mosaic/rootfs\n[other]\nuid_range_end: 7\n";
    let mut cfg = load(Some(text), &defaults);
    assert_eq!(cfg.bundle_version(None), "42");
    assert_eq!(cfg.uid_range(), (6000, 5999));
    assert!(cfg.get("rootfs").is_none());
    cfg.set("uid_range_end", "6500");
    assert_eq!(cfg.uid_range(), (6000, 6500));
    assert_eq!(ini_lookup(text, "other", "uid_range_end"), Some("7".to_string()));
    assert_eq!(ini_lookup(text, "mosaic", "absent"), None);
}

#[test]
fn the_command_line_resolves_its_paths() {
    let cli = Cli {
        version: None,
        log: None,
        details_to_stdout: false,
        verbose: true,
        quiet: false,
        work: Some("/w".to_string()),
        timeout: 60,
        action: Some(Action::Query(QueryArgs { package: None })),
    };
    let args = MosaicArgs::from_cli(cli, "/default");
    assert_eq!(args.config, "/w/mosaic.cfg");
    assert_eq!(args.log, "/w/mosaic.log");
    assert_eq!(args.action_name(), Some("query".to_string()));
}

#[test]
fn load_missing_file_returns_defaults() {
    // A file that is not there reads as no content.
    let cfg = load(None, &Defaults::at("/var/lib/mosaic", "0"));
    assert_eq!(cfg.bundle_version(None), "local");
    assert_eq!(cfg.uid_range(), (5000, 5999));
}

#[test]
fn load_reads_overrides() {
    let content = "[mosaic]\nbundle_version = 42\nuid_range_start = 6000\n";
    let cfg = load(Some(content), &Defaults::at("/var/lib/mosaic", "0"));
    assert_eq!(cfg.bundle_version(None), "42");
    assert_eq!(cfg.uid_range().0, 6000);
}

#[test]
fn load_drops_stale_container_keys() {
    let content = "[mosaic]\nrootfs = /var/lib/mosaic/rootfs\nmount_overlays = True\n";
    let cfg = load(Some(content), &Defaults::at("/var/lib/mosaic", "0"));
    assert!(cfg.get("rootfs").is_none());
    assert!(cfg.get("mount_overlays").is_none());
}

#[test]
fn save_and_load_roundtrip() {
    let defaults = Defaults::at("/var/lib/mosaic", "0");
    let mut cfg = load(None, &defaults);
    cfg.set("bundle_version", "7");
    cfg.set("uid_range_start", "5000");
    let text = cfg.file_text();
    let loaded = load(Some(&text), &defaults);
    assert_eq!(loaded.bundle_version(None), "7");
    assert_eq!(loaded.uid_range().0, 5000);
}

#[test]
fn the_file_lists_each_key_in_name_order() {
    let cfg = load(None, &Defaults::at("/w", "https://example.com/dl"));
    assert_eq!(
        cfg.file_text(),
        "[mosaic]\nbundle_channel = https://example.com/dl\nbundle_version = local\nuid_range_end = 5999\nuid_range_start = 5000\n"
    );
}
