use mosaic::broker::{control_frame, control_frame_length, MAX_CONTROL_FRAME};
use mosaic::broker::registry::{Package, Registry};
use mosaic::broker::{
    apk_package_name, bind_path_from, bind_path_in, plan_package, query_answer, socket_candidates,
    uninstall_selected,
};

fn pkg(name: &str, uid: u32) -> Package {
    Package {
        name: name.to_string(),
        uid,
        data_dir: format!("/var/lib/mosaic/apps/{}", name),
        apk: format!("/tmp/{}.apk", name),
        installed_at: 0,
    }
}

fn registry_with(names: &[&str]) -> Registry {
    let mut registry = Registry::default();
    for (i, name) in names.iter().enumerate() {
        registry.add(Package {
            name: name.to_string(),
            uid: 5000 + i as u32,
            data_dir: format!("/apps/{}", name),
            apk: format!("/apks/{}.apk", name),
            installed_at: 0,
        });
    }
    registry
}

#[test]
fn a_unique_prefix_finds_the_package() {
    let registry = registry_with(&["termux.app.v0.119.0.beta.3", "org.example.other"]);
    assert_eq!(registry.resolve("termux").unwrap().name, "termux.app.v0.119.0.beta.3");
    // Case does not matter, and an exact name still wins.
    assert_eq!(registry.resolve("TERMUX").unwrap().name, "termux.app.v0.119.0.beta.3");
    assert_eq!(registry.resolve("org.example.other").unwrap().uid, 5001);
}

#[test]
fn prefix_first_then_substring() {
    let registry = registry_with(&["termux.app", "app.termux.helper"]);
    assert_eq!(registry.resolve("termux").unwrap().name, "termux.app");
    assert_eq!(registry.resolve("helper").unwrap().name, "app.termux.helper");
}

#[test]
fn ambiguity_says_which_it_matched() {
    let registry = registry_with(&["termux.one", "termux.two"]);
    let err = registry.resolve("termux").unwrap_err().message();
    assert!(err.contains("matches 2 packages"), "{}", err);
    assert!(err.contains("termux.one") && err.contains("termux.two"), "{}", err);
}

#[test]
fn a_miss_names_what_is_installed() {
    let registry = registry_with(&["termux.app"]);
    let err = registry.resolve("nope").unwrap_err().message();
    assert!(err.contains("termux.app"), "{}", err);

    let empty = Registry::default();
    let err = empty.resolve("nope").unwrap_err().message();
    assert!(err.contains("nothing is"), "{}", err);
}

#[test]
fn next_uid_skips_taken_ones() {
    let mut reg = Registry::default();
    reg.add(pkg("a", 5000));
    reg.add(pkg("b", 5002));
    assert_eq!(reg.next_uid(5000, 5003), Some(5001));
    reg.add(pkg("c", 5001));
    assert_eq!(reg.next_uid(5000, 5002), None);
}

#[test]
fn packages_are_listed_in_name_order_one_per_name() {
    let mut reg = Registry::default();
    reg.add(pkg("zeta", 1));
    reg.add(pkg("alpha", 2));
    reg.add(pkg("mid", 3));
    reg.add(pkg("alpha", 4));
    let names: Vec<(String, u32)> = reg.list().into_iter().map(|p| (p.name, p.uid)).collect();
    assert_eq!(
        names,
        vec![("alpha".to_string(), 4), ("mid".to_string(), 3), ("zeta".to_string(), 1)]
    );
    assert_eq!(reg.remove("mid").map(|p| p.uid), Some(3));
    assert!(reg.remove("mid").is_none());
    assert!(reg.get("mid").is_none());
    assert_eq!(reg.get("zeta").unwrap().uid, 1);
}

#[test]
fn socket_candidates_always_include_the_work_dir() {
    let bound = bind_path_in("/var/lib/mosaic", Some("/run/user/1000"));
    assert_eq!(bound, "/run/user/1000/mosaic/broker.sock");
    let candidates = socket_candidates("/var/lib/mosaic", &bound);
    assert!(
        candidates.contains(&"/var/lib/mosaic/broker.sock".to_string()),
        "got {:?}",
        candidates
    );
    let alone = socket_candidates("/var/lib/mosaic", &bind_path_in("/var/lib/mosaic", None));
    assert_eq!(alone, vec!["/var/lib/mosaic/broker.sock".to_string()]);
}

#[test]
fn apk_package_name_sanitizes_separators() {
    let name = apk_package_name("/tmp/My App-1.2!.apk").unwrap();
    assert!(!name.contains('/') && !name.contains(' '));
    assert!(name.starts_with("My"));
    assert_eq!(name, "My.App.1.2.");
    assert!(apk_package_name("/").is_err());
}

#[test]
fn planning_reserves_the_next_uid_and_reports_an_installed_package() {
    let mut reg = Registry::default();
    let (planned, already) =
        plan_package(&reg, "org.example.hello", "/w", "/tmp/hello.apk", 7, 5000, 5999).unwrap();
    assert!(!already);
    assert_eq!(planned.uid, 5000);
    assert_eq!(planned.data_dir, "/w/apps/org.example.hello");
    reg.add(planned);
    let (again, already) =
        plan_package(&reg, "org.example.hello", "/w", "/tmp/hello.apk", 8, 5000, 5999).unwrap();
    assert!(already);
    assert_eq!(again.uid, 5000);
    let (second, _) = plan_package(&reg, "org.example.other", "/w", "/tmp/o.apk", 9, 5000, 5999).unwrap();
    assert_eq!(second.uid, 5001);
    let full = plan_package(&reg, "x", "/w", "/tmp/x.apk", 9, 5000, 5000).unwrap_err();
    assert_eq!(full.message(), "no free UID in the reserved range 5000-5000");
}

#[test]
fn uninstalling_by_prefix_removes_what_it_resolved_to() {
    let mut reg = registry_with(&["org.example.hello"]);
    assert_eq!(query_answer(&reg, Some("hello")).len(), 1);
    assert_eq!(query_answer(&reg, Some("ORG.EXAMPLE")).len(), 1);
    assert_eq!(query_answer(&reg, Some("absent")).len(), 0);
    let removed = uninstall_selected(&mut reg, "org.ex").unwrap();
    assert_eq!(removed.name, "org.example.hello");
    assert!(reg.list().is_empty());
    assert!(uninstall_selected(&mut reg, "org.ex").is_err());
}

#[test]
fn oversized_frame_is_rejected_before_allocating() {
    let bogus = ((MAX_CONTROL_FRAME + 1) as u32).to_be_bytes();
    let got = control_frame_length(&bogus);
    assert_eq!(got, Err(format!("frame too large: {} bytes", MAX_CONTROL_FRAME + 1)));
}

#[test]
fn a_control_frame_is_its_length_and_its_body() {
    let frame = control_frame(b"{\"Ping\":null}").unwrap();
    assert_eq!(&frame[..4], &[0, 0, 0, 13]);
    assert_eq!(&frame[4..], b"{\"Ping\":null}");
    let prefix: [u8; 4] = frame[..4].try_into().unwrap();
    assert_eq!(control_frame_length(&prefix), Ok(13));
    assert!(control_frame(&vec![0u8; MAX_CONTROL_FRAME + 1]).is_err());
}

#[test]
fn the_socket_path_follows_the_environment() {
    assert_eq!(bind_path_from("/w", Some("/tmp/s.sock"), Some("/run/user/1")), "/tmp/s.sock");
    assert_eq!(bind_path_from("/w", None, Some("/run/user/1")), "/run/user/1/mosaic/broker.sock");
    assert_eq!(bind_path_from("/w", None, Some("")), "/w/broker.sock");
    assert_eq!(bind_path_from("/w", None, None), "/w/broker.sock");
}

#[test]
fn removing_what_was_just_added_restores_the_registry() {
    let mut reg = Registry::default();
    reg.add(pkg("a", 1));
    reg.add(pkg("c", 3));
    let before = reg.list();
    reg.add(pkg("b", 2));
    assert_eq!(reg.remove("b"), Some(pkg("b", 2)));
    assert_eq!(reg.list(), before);
}
