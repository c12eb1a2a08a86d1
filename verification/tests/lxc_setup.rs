use mosaic::helpers::lxc::setup::{cat_line_of, lxc_setup_commands, lxc_snippets, nodes_move_command};

fn strings(v: &[&str]) -> Vec<String> {
    v.iter().map(|s| s.to_string()).collect()
}

#[test]
fn old_lxc_takes_the_base_and_the_first_snippet() {
    assert_eq!(
        lxc_snippets("/usr/share/mosaic", 2, &Vec::new()),
        strings(&["/usr/share/mosaic/data/configs/config_base", "/usr/share/mosaic/data/configs/config_1"])
    );
}

#[test]
fn newer_lxc_takes_each_shipped_snippet_up_to_its_version() {
    let shipped = strings(&["/t/data/configs/config_3", "/t/data/configs/config_4"]);
    assert_eq!(
        lxc_snippets("/t", 4, &shipped),
        strings(&["/t/data/configs/config_base", "/t/data/configs/config_3", "/t/data/configs/config_4"])
    );
    assert_eq!(
        lxc_snippets("/t", 3, &shipped),
        strings(&["/t/data/configs/config_base", "/t/data/configs/config_3"])
    );
    assert_eq!(
        lxc_snippets("/t", 5, &strings(&["/t/data/configs/config_4"])),
        strings(&["/t/data/configs/config_base", "/t/data/configs/config_4"])
    );
}

#[test]
fn the_snippets_are_written_into_the_config_in_order() {
    let line = cat_line_of(&strings(&["/a/config_base", "/a/config_3"]), "/w/lxc/mosaic");
    assert_eq!(line, "cat \"/a/config_base\" \"/a/config_3\" > \"/w/lxc/mosaic/config\"");
}

#[test]
fn the_setup_commands_assemble_the_config() {
    let snippets = strings(&["/t/data/configs/config_base"]);
    let cmds = lxc_setup_commands("/w", "/t", &snippets, "x86_64", true);
    assert_eq!(cmds.len(), 6);
    assert_eq!(cmds[0], strings(&["mkdir", "-p", "/w/lxc/mosaic"]));
    assert_eq!(cmds[1], strings(&["sh", "-c", "cat \"/t/data/configs/config_base\" > \"/w/lxc/mosaic/config\""]));
    assert_eq!(cmds[2], strings(&["sed", "-i", "s/LXCARCH/x86_64/", "/w/lxc/mosaic/config"]));
    assert_eq!(
        cmds[3],
        strings(&["sed", "-i", "s#LXCPOSTSTOP#/t/data/scripts/mosaic-post-stop.sh#", "/w/lxc/mosaic/config"])
    );
    assert_eq!(
        cmds[4],
        strings(&["cp", "-fpr", "/t/data/configs/mosaic.seccomp", "/w/lxc/mosaic/mosaic.seccomp"])
    );
    assert_eq!(
        cmds[5],
        strings(&[
            "sed",
            "-i",
            "-E",
            "/lxc.aa_profile|lxc.apparmor.profile/ s/unconfined/lxc-mosaic/g",
            "/w/lxc/mosaic/config"
        ])
    );
    assert_eq!(lxc_setup_commands("/w", "/t", &snippets, "x86_64", false).len(), 5);
    assert_eq!(nodes_move_command("/w"), strings(&["mv", "/w/config_nodes", "/w/lxc/mosaic"]));
}
