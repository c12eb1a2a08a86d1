use mosaic::helpers::gpu::intel_before_gen9;
use mosaic::text::{parse_i32_chars, parse_i64_chars};
use mosaic::helpers::mount::mounts_under;
use mosaic::helpers::lxc::base::{make_base_props, BaseHost};
use mosaic::helpers::lxc::{add_node_entry, generate_nodes_lxc_config, NodeHost};
use mosaic::helpers::gpu::{get_kernel_driver, get_minor, vulkan_driver_for};
use mosaic::helpers::http::cache_path;
use mosaic::helpers::ipc::{dbus_container_interface, dbus_container_service_path};
use mosaic::helpers::process::{
    checked_command, checked_mode, failure_message, ps_rows, run_plan, run_step, tree_preorder, OutputMode, RunAction,
    RunEvent,
};
use mosaic::helpers::props::{parse_getprop_line, prop_value};
use mosaic::helpers::protocol::aidl_protocols;
use mosaic::helpers::run::{flat_cmd, shell_escape};
use mosaic::helpers::version::{kernel_version_of, versiontuple};

#[test]
fn versiontuple_works() {
    assert_eq!(versiontuple("1.3.4"), vec![1, 3, 4]);
    assert_eq!(versiontuple("1.6.0"), vec![1, 6, 0]);
    assert!(versiontuple("1.3.4") <= versiontuple("1.3.4"));
    assert!(versiontuple("1.3.3") < versiontuple("1.3.4"));
}

#[test]
fn versiontuple_leaves_out_what_is_not_a_number() {
    assert_eq!(versiontuple("1.x.+2.99999999999"), vec![1, 2]);
    assert_eq!(versiontuple(""), Vec::<u32>::new());
    assert_eq!(kernel_version_of("6.8.0-arch1"), (6, 8));
    assert_eq!(kernel_version_of("weird"), (5, 0));
}

#[test]
fn parse_getprop_line_works() {
    assert_eq!(
        parse_getprop_line("[ro.build.fingerprint]: [google/foo/bar]"),
        Some(("ro.build.fingerprint".to_string(), "google/foo/bar".to_string()))
    );
}

#[test]
fn a_getprop_line_without_brackets_is_nothing() {
    assert_eq!(parse_getprop_line("ro.x=1"), None);
    assert_eq!(parse_getprop_line("[a]: b"), None);
    assert_eq!(parse_getprop_line("  [a]:   []  "), Some(("a".to_string(), String::new())));
}

#[test]
fn a_property_file_gives_the_first_value() {
    let text = "# comment\nro.build.version.sdk=33\n ro.product.device = mosaic \nro.build.version.sdk=34\n";
    assert_eq!(prop_value(text, "ro.build.version.sdk"), Some("33".to_string()));
    assert_eq!(prop_value(text, "ro.product.device"), Some("mosaic".to_string()));
    assert_eq!(prop_value(text, "missing"), None);
}

#[test]
fn a_command_is_flattened_with_its_environment_quoted() {
    let cmd = vec!["echo".to_string(), "it's here".to_string(), "$HOME".to_string()];
    let env = vec![("A".to_string(), "b c".to_string())];
    assert_eq!(
        flat_cmd(&cmd, Some("/tmp/x y"), &env),
        "cd '/tmp/x y';A='b c' echo 'it'\\''s here' '$HOME'"
    );
    assert_eq!(flat_cmd(&vec!["ls".to_string()], None, &Vec::new()), "ls");
    assert_eq!(shell_escape("plain"), "plain");
}

#[test]
fn an_output_mode_is_named() {
    assert_eq!(OutputMode::from_str("log"), Ok(OutputMode::Log));
    assert_eq!(OutputMode::from_str("pipe"), Ok(OutputMode::Pipe));
    assert_eq!(OutputMode::from_str("loud"), Err("Invalid output value: loud".to_string()));
    assert_eq!(
        checked_mode("background", true),
        Err("Can't use output_return with output: background".to_string())
    );
    assert_eq!(checked_mode("background", false), Ok(OutputMode::Background));
}

#[test]
fn the_protocols_follow_the_api_level() {
    assert_eq!(aidl_protocols(27), ("aidl", "aidl"));
    assert_eq!(aidl_protocols(30), ("aidl3", "aidl3"));
    assert_eq!(aidl_protocols(31), ("aidl4", "aidl3"));
    assert_eq!(aidl_protocols(35), ("aidl3", "aidl5"));
    assert_eq!(aidl_protocols(36), ("aidl3", "aidl6"));
}

#[test]
fn cache_path_is_stable_and_hashed() {
    let a = cache_path("/var/lib/mosaic", "images/system", "https://example.com/x");
    let b = cache_path("/var/lib/mosaic", "images/system", "https://example.com/x");
    assert_eq!(a, b);
    assert!(a.starts_with("/var/lib/mosaic/cache_http/images_system_"));
    let c = cache_path("/var/lib/mosaic", "images/system", "https://example.com/y");
    assert_ne!(a, c, "different urls must get different cache keys");
}

#[test]
fn the_cache_key_is_the_sha256_of_the_url() {
    let empty = cache_path("/w", "p", "");
    assert_eq!(
        empty,
        "/w/cache_http/p_e3b0c44298fc1c149afbf4c8996fb92427ae41e4649b934ca495991b7852b855"
    );
}

#[test]
fn a_uevent_names_the_driver_and_the_minor() {
    let text = "DRIVER=i915\nPCI_ID=8086:3E9B\nMINOR=128\n";
    assert_eq!(get_kernel_driver(Some(text)), "i915");
    assert_eq!(get_minor(Some(text)), "128");
    assert_eq!(get_kernel_driver(None), "");
    assert_eq!(vulkan_driver_for("i915", true), "intel_hasvk");
    assert_eq!(vulkan_driver_for("i915", false), "intel");
    assert_eq!(vulkan_driver_for("amdgpu", false), "radeon");
    assert_eq!(vulkan_driver_for("nvidia", false), "");
}

#[test]
fn the_container_service_has_its_dbus_names() {
    assert_eq!(dbus_container_service_path(), "/ContainerManager");
    assert_eq!(dbus_container_interface(), "id.mosaic.ContainerManager");
}

fn bare_host() -> NodeHost {
    NodeHost {
        work: "/var/lib/mosaic".to_string(),
        render: String::new(),
        framebuffers: Vec::new(),
        graphics_framebuffers: Vec::new(),
        video: Vec::new(),
        dma_heaps: Vec::new(),
        binder: None,
        vndbinder: None,
        hwbinder: None,
        vendor_type: None,
        present: Vec::new(),
    }
}

#[test]
fn a_bare_host_gets_only_the_unchecked_entries() {
    let nodes = generate_nodes_lxc_config(&bare_host());
    assert_eq!(
        nodes,
        vec![
            "lxc.mount.entry = tmpfs dev tmpfs nosuid 0 0",
            "lxc.mount.entry = /dev/binder dev/binder none bind,create=file,optional 0 0",
            "lxc.mount.entry = /dev/vndbinder dev/vndbinder none bind,create=file,optional 0 0",
            "lxc.mount.entry = /dev/hwbinder dev/hwbinder none bind,create=file,optional 0 0",
            "lxc.mount.entry = none dev/pts devpts defaults,mode=644,ptmxmode=666,create=dir 0 0",
            "lxc.mount.entry = tmpfs mnt_extra tmpfs nodev 0 0",
            "lxc.mount.entry = tmpfs tmp tmpfs nodev 0 0",
            "lxc.mount.entry = tmpfs var tmpfs nodev 0 0",
            "lxc.mount.entry = tmpfs run tmpfs nodev 0 0",
        ]
    );
}

#[test]
fn present_devices_and_globbed_nodes_are_bound_where_they_are() {
    let mut host = bare_host();
    host.present = vec![
        "/dev/zero".to_string(),
        "/dev/dri/renderD128".to_string(),
        "/dev/fb0".to_string(),
        "/var/lib/mosaic/host-permissions".to_string(),
        "/vendor".to_string(),
    ];
    host.render = "/dev/dri/renderD128".to_string();
    host.framebuffers = vec!["/dev/fb0".to_string()];
    host.binder = Some("anbox-binder".to_string());
    host.vendor_type = Some("HALIUM_11".to_string());
    let nodes = generate_nodes_lxc_config(&host);
    assert_eq!(nodes[1], "lxc.mount.entry = /dev/zero dev/zero none bind,create=file,optional 0 0");
    assert_eq!(
        nodes[2],
        "lxc.mount.entry = /dev/dri/renderD128 dev/dri/renderD128 none bind,create=file,optional 0 0"
    );
    assert_eq!(nodes[3], "lxc.mount.entry = /dev/fb0 dev/fb0 none bind,create=file,optional 0 0");
    assert_eq!(
        nodes[4],
        "lxc.mount.entry = /dev/anbox-binder dev/binder none bind,create=file,optional 0 0"
    );
    // Not mainline: the host's hwbinder is absent here, its vendor partition is not.
    assert_eq!(nodes[7], "lxc.mount.entry = /vendor vendor_extra none rbind,optional 0 0");
    assert!(nodes.contains(
        &"lxc.mount.entry = /var/lib/mosaic/host-permissions vendor/etc/host-permissions none bind,optional 0 0"
            .to_string()
    ));
    assert_eq!(nodes.len(), 9 + 5);
}

#[test]
fn a_checked_entry_for_a_missing_source_is_left_out() {
    let mut nodes = Vec::new();
    let present = vec!["/dev/ion".to_string()];
    assert!(!add_node_entry(&mut nodes, "/dev/kgsl-3d0", None, "none", "bind,create=file,optional 0 0", true, &present));
    assert!(nodes.is_empty());
    assert!(add_node_entry(&mut nodes, "/dev/ion", None, "none", "bind,create=file,optional 0 0", true, &present));
    assert!(add_node_entry(&mut nodes, "//srv", Some("srv_extra"), "none", "rbind 0 0", false, &present));
    assert!(add_node_entry(&mut nodes, "//srv", None, "none", "rbind 0 0", false, &present));
    assert_eq!(
        nodes,
        vec![
            "lxc.mount.entry = /dev/ion dev/ion none bind,create=file,optional 0 0",
            "lxc.mount.entry = //srv srv_extra none rbind 0 0",
            "lxc.mount.entry = //srv srv none rbind 0 0",
        ]
    );
}

fn base_host() -> BaseHost {
    BaseHost {
        ashmem: true,
        egl: String::new(),
        dri: "/dev/dri/renderD128".to_string(),
        gralloc_hal: String::new(),
        hidl_allocator: false,
        aidl_allocator: false,
        media_profiles: String::new(),
        ccodec: String::new(),
        extension_library: String::new(),
        vulkan_hal: String::new(),
        vulkan_driver: "radeon".to_string(),
        treble: String::new(),
        camera_hal: String::new(),
        opengles: String::new(),
        arm_egl: Vec::new(),
        vendor_products: vec![String::new(); 5],
        device_tree: vec![None, Some(b"pine\0".to_vec()), None, None, None],
        fingerprint: String::new(),
        work: "/var/lib/mosaic".to_string(),
        vendor_type: None,
        images_path: None,
        system_ota: Some("https://ota/system".to_string()),
        vendor_ota: None,
        preinstalled: vec!["/usr/share/waydroid-extra/images".to_string()],
        tools_version: "1.0.0".to_string(),
        properties: vec![
            ("ro.hardware.egl".to_string(), "angle".to_string()),
            ("persist.x".to_string(), "1".to_string()),
        ],
    }
}

#[test]
fn a_mainline_host_with_a_render_node_gets_gbm_and_its_overrides_last() {
    assert_eq!(
        make_base_props(&base_host()),
        vec![
            "ro.adb.secure=1",
            "ro.debuggable=0",
            "gralloc.gbm.device=/dev/dri/renderD128",
            "debug.stagefright.ccodec=0",
            "ro.hardware.gralloc=gbm",
            "ro.hardware.vulkan=radeon",
            "ro.hardware.camera=v4l2",
            "ro.opengles.version=196610",
            "waydroid.system_ota=https://ota/system",
            "waydroid.tools_version=1.0.0",
            "ro.vndk.lite=true",
            "ro.product.waydroid.device=pine",
            "ro.hardware.egl=angle",
            "persist.x=1",
        ]
    );
}

#[test]
fn a_vendor_image_with_an_allocator_uses_androids_gralloc_and_the_host_paths_move() {
    let mut host = base_host();
    host.ashmem = false;
    host.vendor_type = Some("HALIUM_11".to_string());
    host.hidl_allocator = true;
    host.egl = "mali".to_string();
    host.images_path = Some("/usr/share/waydroid-extra/images".to_string());
    host.media_profiles = "/vendor/etc/media_profiles_V1_0.xml".to_string();
    host.extension_library = "/odm/lib/libext.so".to_string();
    host.treble = "true".to_string();
    host.properties = Vec::new();
    host.vendor_products = vec!["Pine64".to_string(), String::new(), String::new(), String::new(), String::new()];
    assert_eq!(
        make_base_props(&host),
        vec![
            "sys.use_memfd=true",
            "ro.adb.secure=1",
            "ro.debuggable=0",
            "ro.hardware.gralloc=android",
            "ro.hardware.egl=mali",
            "media.settings.xml=/vendor_extra/etc/media_profiles_V1_0.xml",
            "ro.vendor.extension_library=/odm_extra/lib/libext.so",
            "ro.hardware.vulkan=radeon",
            "ro.opengles.version=196610",
            "waydroid.updater.disabled=true",
            "waydroid.tools_version=1.0.0",
            "ro.product.waydroid.brand=Pine64",
            "ro.product.waydroid.device=pine",
        ]
    );
}

#[test]
fn kernel_driver_is_empty_for_unknown_device() {
    // An unknown device has no uevent file to read.
    assert_eq!(get_kernel_driver(None), "");
}

#[test]
fn umount_all_list_parsing() {
    let table = "/dev/sda1 / ext4 rw 0 0\n\
                 /dev/sda1 /var/lib/mosaic/rootfs ext4 rw 0 0\n\
                 /dev/sda1 /var/lib/mosaic/rootfs/vendor ext4 rw 0 0\n\
                 tmpfs /tmp tmpfs rw 0 0\n";
    let list = mounts_under("/var/lib/mosaic/rootfs", "/proc/mounts", table).unwrap();
    assert_eq!(list.len(), 2);
    assert!(list[0].contains("vendor"));
}

#[test]
fn deleted_suffix_removed() {
    let table = "/dev/sda1 /var/lib/mosaic/rootfs\\040(deleted) ext4 rw 0 0\n";
    let list = mounts_under("/var/lib/mosaic/rootfs", "/proc/mounts", table).unwrap();
    assert_eq!(list[0], "/var/lib/mosaic/rootfs");
}

#[test]
fn a_line_that_is_not_a_mount_is_quoted_in_the_error() {
    let table = "/dev/sda1 /a ext4 rw 0 0\nnonsense\n";
    assert_eq!(
        mounts_under("/a", "/proc/mounts", table),
        Err("Failed to parse line in /proc/mounts: nonsense".to_string())
    );
    assert_eq!(mounts_under("/b", "/proc/mounts", ""), Ok(vec![]));
}

#[test]
fn an_intel_part_before_generation_nine_is_told_apart() {
    assert!(intel_before_gen9("platform: SKYLAKE\ngen: 8\n"));
    assert!(!intel_before_gen9("graphics version: 12\n"));
    assert!(intel_before_gen9("  graphics version: 7  \nother: 3\n"));
    assert!(!intel_before_gen9("gen: x\n"));
    assert!(!intel_before_gen9(""));
}

#[test]
fn signed_numbers_read_as_the_standard_library_reads_them() {
    let chars = |s: &str| s.chars().collect::<Vec<char>>();
    assert_eq!(parse_i64_chars(&chars("-9223372036854775808")), Some(i64::MIN));
    assert_eq!(parse_i64_chars(&chars("9223372036854775807")), Some(i64::MAX));
    assert_eq!(parse_i64_chars(&chars("9223372036854775808")), None);
    assert_eq!(parse_i64_chars(&chars("+12")), Some(12));
    assert_eq!(parse_i64_chars(&chars("-")), None);
    assert_eq!(parse_i64_chars(&chars("")), None);
    assert_eq!(parse_i32_chars(&chars("-2147483648")), Some(i32::MIN));
    assert_eq!(parse_i32_chars(&chars("2147483648")), None);
    assert_eq!(parse_i32_chars(&chars("1a")), None);
}

#[test]
fn an_empty_command_is_refused_before_anything_runs() {
    assert_eq!(checked_command(&vec![], "log", false), Err("Empty command".to_string()));
    assert_eq!(checked_command(&vec![], "nope", false), Err("Invalid output value: nope".to_string()));
    assert_eq!(
        checked_command(&vec![], "tui", true),
        Err("Can't use output_return with output: tui".to_string())
    );
    assert_eq!(checked_command(&vec!["true".to_string()], "pipe", true), Ok(OutputMode::Pipe));
}

fn rows(v: &[(&str, &str)]) -> Vec<(String, String)> {
    v.iter().map(|(a, b)| (a.to_string(), b.to_string())).collect()
}

#[test]
fn a_process_tree_is_killed_parent_first() {
    let table = rows(&[("10", "1"), ("11", "10"), ("12", "10"), ("13", "11"), ("20", "1"), ("x", "10")]);
    assert_eq!(tree_preorder(&table, 10), vec![10, 11, 13, 12]);
    assert_eq!(tree_preorder(&table, 13), vec![13]);
    assert_eq!(tree_preorder(&table, 1), vec![1, 10, 11, 13, 12, 20]);
}

#[test]
fn the_process_table_is_read_after_its_header() {
    let text = "    PID    PPID\n      1       0\n     42       1\n  bad line here\n";
    assert_eq!(ps_rows(text), rows(&[("1", "0"), ("42", "1")]));
    assert_eq!(ps_rows(""), Vec::<(String, String)>::new());
}

#[test]
fn a_watched_command_is_killed_only_after_the_whole_silence() {
    let plan = run_plan(OutputMode::Log, false, false);
    assert!(plan.watch_silence && !plan.to_stdout);
    assert_eq!(run_step(plan, 30, true, RunEvent::Running { silent_secs: 29 }), RunAction::Wait);
    assert_eq!(run_step(plan, 30, true, RunEvent::Running { silent_secs: 30 }), RunAction::KillForSilence);
    assert_eq!(run_step(plan, 30, true, RunEvent::Exited { success: false }), RunAction::Failed);
    assert_eq!(run_step(plan, 30, false, RunEvent::Exited { success: false }), RunAction::Done);
    let quiet = run_plan(OutputMode::Interactive, false, false);
    assert!(quiet.to_stdout && !quiet.watch_silence);
    assert_eq!(run_step(quiet, 1, true, RunEvent::Running { silent_secs: 100 }), RunAction::Wait);
    assert!(!run_plan(OutputMode::Stdout, true, true).to_stdout);
    assert_eq!(failure_message("% echo", true), "Command failed: % echo (timeout)");
    assert_eq!(failure_message("% echo", false), "Command failed: % echo");
}
