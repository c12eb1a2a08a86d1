//! The device nodes and mounts an LXC container config binds in from the
//! host: one `lxc.mount.entry` line each, for what the host has.

pub mod base;
pub mod setup;

use vstd::prelude::*;

use crate::text::{chars_of, push_str, same_text, string_of};

verus! {

/// The options of a bound device file that may be absent.
pub const FILE_OPT: &'static str = "bind,create=file,optional 0 0";
/// The options of a bound directory that may be absent.
pub const DIR_OPT: &'static str = "bind,create=dir,optional 0 0";

/// What the host has, as far as the node list asks: the paths that exist,
/// what the globs found, the binder devices and the vendor type.
pub struct NodeHost {
    /// The work directory.
    pub work: String,
    /// The GPU's render node, or empty when there is none.
    pub render: String,
    /// What `/dev/fb*` matched.
    pub framebuffers: Vec<String>,
    /// What `/dev/graphics/fb*` matched.
    pub graphics_framebuffers: Vec<String>,
    /// What `/dev/video*` matched.
    pub video: Vec<String>,
    /// What `/dev/dma_heap/*` matched.
    pub dma_heaps: Vec<String>,
    /// The binder devices the host gave the container, where it names them.
    pub binder: Option<String>,
    pub vndbinder: Option<String>,
    pub hwbinder: Option<String>,
    /// The configured vendor type, where there is one.
    pub vendor_type: Option<String>,
    /// The paths, of those the list checks, that exist on the host.
    pub present: Vec<String>,
}

/// A path with its leading slashes taken off.
pub open spec fn trim_slashes(s: Seq<char>) -> Seq<char>
    decreases s.len(),
{
    if s.len() > 0 && s[0] == '/' {
        trim_slashes(s.drop_first())
    } else {
        s
    }
}

/// One `lxc.mount.entry` line: the source, where it goes in the container
/// (the source itself, relative, unless given), the type and the options.
pub open spec fn entry_line(src: Seq<char>, dist: Option<Seq<char>>, mnt_type: Seq<char>, options: Seq<char>) -> Seq<char> {
    "lxc.mount.entry = "@ + src + " "@ + match dist {
        Some(d) => d,
        None => trim_slashes(src),
    } + " "@ + mnt_type + " "@ + options
}

/// The line for a mount, if it goes in: one that is checked goes in only when
/// its source exists.
pub open spec fn node(present: Set<Seq<char>>, src: Seq<char>, dist: Option<Seq<char>>, mnt_type: Seq<char>, options: Seq<char>, check: bool) -> Seq<Seq<char>> {
    if check && !present.contains(src) {
        Seq::empty()
    } else {
        seq![entry_line(src, dist, mnt_type, options)]
    }
}

/// The characters of each string.
pub open spec fn texts(v: Seq<String>) -> Seq<Seq<char>> {
    v.map_values(|s: String| s@)
}

/// A bound device file for each of `paths`, where it exists.
pub open spec fn device_files(present: Set<Seq<char>>, paths: Seq<Seq<char>>) -> Seq<Seq<char>>
    decreases paths.len(),
{
    if paths.len() == 0 {
        Seq::empty()
    } else {
        device_files(present, paths.drop_last()) + node(present, paths.last(), None, "none"@, FILE_OPT@, true)
    }
}

/// The memory and terminal devices.
pub open spec fn core_devices(p: Set<Seq<char>>) -> Seq<Seq<char>> {
    node(p, "tmpfs"@, Some("dev"@), "tmpfs"@, "nosuid 0 0"@, false)
        + node(p, "/dev/zero"@, None, "none"@, FILE_OPT@, true)
        + node(p, "/dev/null"@, None, "none"@, FILE_OPT@, true)
        + node(p, "/dev/full"@, None, "none"@, FILE_OPT@, true)
}

/// Shared memory, fuse, ion and the terminal.
pub open spec fn memory_devices(p: Set<Seq<char>>) -> Seq<Seq<char>> {
    node(p, "/dev/ashmem"@, None, "none"@, FILE_OPT@, true)
        + node(p, "/dev/fuse"@, None, "none"@, FILE_OPT@, true)
        + node(p, "/dev/ion"@, None, "none"@, FILE_OPT@, true)
        + node(p, "/dev/tty"@, None, "none"@, FILE_OPT@, true)
}

/// The character device directory and the GPU vendors' devices.
pub open spec fn vendor_gpu_devices(p: Set<Seq<char>>) -> Seq<Seq<char>> {
    node(p, "/dev/char"@, None, "none"@, DIR_OPT@, true)
        + node(p, "/dev/kgsl-3d0"@, None, "none"@, FILE_OPT@, true)
        + node(p, "/dev/mali0"@, None, "none"@, FILE_OPT@, true)
}

/// PowerVR sync, the persistent log and the WSL GPU.
pub open spec fn misc_devices(p: Set<Seq<char>>) -> Seq<Seq<char>> {
    node(p, "/dev/pvr_sync"@, None, "none"@, FILE_OPT@, true)
        + node(p, "/dev/pmsg0"@, None, "none"@, FILE_OPT@, true)
        + node(p, "/dev/dxg"@, None, "none"@, FILE_OPT@, true)
}

/// The device nodes every container gets, where the host has them.
pub open spec fn base_devices(p: Set<Seq<char>>) -> Seq<Seq<char>> {
    core_devices(p) + memory_devices(p) + vendor_gpu_devices(p) + misc_devices(p)
}

/// The GPU's render node and the framebuffers, video devices and DMA heaps
/// the globs found.
pub open spec fn gpu_devices(p: Set<Seq<char>>, h: NodeHost) -> Seq<Seq<char>> {
    (if h.render@.len() > 0 {
        node(p, h.render@, None, "none"@, FILE_OPT@, true)
    } else {
        Seq::empty()
    }) + device_files(p, texts(h.framebuffers@)) + device_files(p, texts(h.graphics_framebuffers@))
        + device_files(p, texts(h.video@)) + device_files(p, texts(h.dma_heaps@))
}

/// A name the host gave, or the default.
pub open spec fn or_default(name: Option<String>, default: Seq<char>) -> Seq<char> {
    match name {
        Some(n) => n@,
        None => default,
    }
}

/// The three binder devices, under the names the container expects.
pub open spec fn binder_devices(p: Set<Seq<char>>, h: NodeHost) -> Seq<Seq<char>> {
    node(p, "/dev/"@ + or_default(h.binder, "binder"@), Some("dev/binder"@), "none"@, FILE_OPT@, false)
        + node(p, "/dev/"@ + or_default(h.vndbinder, "vndbinder"@), Some("dev/vndbinder"@), "none"@, FILE_OPT@, false)
        + node(p, "/dev/"@ + or_default(h.hwbinder, "hwbinder"@), Some("dev/hwbinder"@), "none"@, FILE_OPT@, false)
}

/// A vendor image other than mainline also gets the host's hwbinder and
/// vendor partition.
pub open spec fn vendor_devices(p: Set<Seq<char>>, h: NodeHost) -> Seq<Seq<char>> {
    if or_default(h.vendor_type, "MAINLINE"@) != "MAINLINE"@ {
        node(p, "/dev/hwbinder"@, Some("dev/host_hwbinder"@), "none"@, FILE_OPT@, true)
            + node(p, "/vendor"@, Some("vendor_extra"@), "none"@, "rbind,optional 0 0"@, true)
    } else {
        Seq::empty()
    }
}

/// Pseudo terminals, input and networking.
pub open spec fn terminal_devices(p: Set<Seq<char>>) -> Seq<Seq<char>> {
    node(p, "none"@, Some("dev/pts"@), "devpts"@, "defaults,mode=644,ptmxmode=666,create=dir 0 0"@, false)
        + node(p, "/dev/uhid"@, None, "none"@, FILE_OPT@, true)
        + node(p, "/dev/net/tun"@, Some("dev/tun"@), "none"@, FILE_OPT@, true)
        + node(p, "/sys/module/lowmemorykiller"@, None, "none"@, DIR_OPT@, true)
}

/// The host's permissions, sync and debug.
pub open spec fn host_devices(p: Set<Seq<char>>, work: Seq<char>) -> Seq<Seq<char>> {
    node(p, work + "/host-permissions"@, Some("vendor/etc/host-permissions"@), "none"@, "bind,optional 0 0"@, true)
        + node(p, "/dev/sw_sync"@, None, "none"@, FILE_OPT@, true)
        + node(p, "/sys/kernel/debug"@, None, "none"@, "rbind,create=dir,optional 0 0"@, true)
}

/// The vibrator, under its two names, and the first of the MediaTek codec
/// nodes.
pub open spec fn vibrator_devices(p: Set<Seq<char>>) -> Seq<Seq<char>> {
    node(p, "/sys/class/leds/vibrator"@, None, "none"@, DIR_OPT@, true)
        + node(p, "/sys/devices/virtual/timed_output/vibrator"@, None, "none"@, DIR_OPT@, true)
        + node(p, "/dev/Vcodec"@, None, "none"@, FILE_OPT@, true)
}

/// The rest of the MediaTek nodes.
pub open spec fn mediatek_devices(p: Set<Seq<char>>) -> Seq<Seq<char>> {
    node(p, "/dev/MTK_SMI"@, None, "none"@, FILE_OPT@, true)
        + node(p, "/dev/mdp_sync"@, None, "none"@, FILE_OPT@, true)
        + node(p, "/dev/mtk_cmdq"@, None, "none"@, FILE_OPT@, true)
}

/// Terminals, input, networking, permissions and the vendor-specific nodes.
pub open spec fn system_devices(p: Set<Seq<char>>, h: NodeHost) -> Seq<Seq<char>> {
    terminal_devices(p) + host_devices(p, h.work@) + vibrator_devices(p) + mediatek_devices(p)
}

/// The scratch file systems and the last optional binds.
pub open spec fn scratch_mounts(p: Set<Seq<char>>) -> Seq<Seq<char>> {
    node(p, "tmpfs"@, Some("mnt_extra"@), "tmpfs"@, "nodev 0 0"@, false)
        + node(p, "/mnt/wslg"@, Some("mnt_extra/wslg"@), "none"@, "rbind,create=dir,optional 0 0"@, true)
        + node(p, "tmpfs"@, Some("tmp"@), "tmpfs"@, "nodev 0 0"@, false)
        + node(p, "tmpfs"@, Some("var"@), "tmpfs"@, "nodev 0 0"@, false)
        + node(p, "tmpfs"@, Some("run"@), "tmpfs"@, "nodev 0 0"@, false)
        + node(p, "/system/etc/libnfc-nci.conf"@, None, "none"@, "bind,optional 0 0"@, true)
}

/// The whole node list, in the order the config gets it.
pub open spec fn node_lines(h: NodeHost) -> Seq<Seq<char>> {
    let p = texts(h.present@).to_set();
    base_devices(p) + gpu_devices(p, h) + binder_devices(p, h) + vendor_devices(p, h) + system_devices(p, h)
        + scratch_mounts(p)
}


/// A `&str` option as characters.
pub open spec fn opt_text(o: Option<&str>) -> Option<Seq<char>> {
    match o {
        Some(s) => Some(s@),
        None => None,
    }
}

/// Whether `path` is one of `present`.
fn is_present(present: &Vec<String>, path: &str) -> (r: bool)
    ensures
        r == texts(present@).to_set().contains(path@),
{
    let mut i: usize = 0;
    while i < present.len()
        invariant
            i <= present@.len(),
            forall|k: int| 0 <= k < i ==> (#[trigger] present@[k])@ != path@,
        decreases present@.len() - i,
    {
        if same_text(present[i].as_str(), path) {
            assert(texts(present@)[i as int] == path@);
            return true;
        }
        i = i + 1;
    }
    proof {
        if texts(present@).to_set().contains(path@) {
            let k = choose|k: int| 0 <= k < texts(present@).len() && texts(present@)[k] == path@;
            assert(present@[k]@ == path@);
        }
    }
    false
}

/// Taking one leading slash off takes nothing else off.
proof fn lemma_trim_slashes_step(s: Seq<char>, i: int)
    requires
        0 <= i < s.len(),
        s[i] == '/',
    ensures
        trim_slashes(s.subrange(i, s.len() as int)) == trim_slashes(s.subrange(i + 1, s.len() as int)),
{
    assert(s.subrange(i, s.len() as int).drop_first() =~= s.subrange(i + 1, s.len() as int));
}

/// A path with its leading slashes taken off.
fn trim_leading_slashes(s: &str) -> (r: String)
    ensures
        r@ == trim_slashes(s@),
{
    let v = chars_of(s);
    let mut i: usize = 0;
    assert(v@.subrange(0, v@.len() as int) =~= v@);
    while i < v.len() && v[i] == '/'
        invariant
            v@ == s@,
            i <= v@.len(),
            trim_slashes(s@) == trim_slashes(v@.subrange(i as int, v@.len() as int)),
        decreases v@.len() - i,
    {
        proof {
            lemma_trim_slashes_step(v@, i as int);
        }
        i = i + 1;
    }
    let rest = crate::text::slice_chars(v.as_slice(), i, v.len());
    proof {
        let t = v@.subrange(i as int, v@.len() as int);
        assert(!(t.len() > 0 && t[0] == '/'));
    }
    string_of(rest.as_slice())
}

/// Add the mount entry for `src` to `nodes`, unless it is checked and the
/// host does not have it. Says whether it went in.
pub fn add_node_entry(
    nodes: &mut Vec<String>,
    src: &str,
    dist: Option<&str>,
    mnt_type: &str,
    options: &str,
    check: bool,
    present: &Vec<String>,
) -> (r: bool)
    ensures
        texts(final(nodes)@) == texts(old(nodes)@) + node(texts(present@).to_set(), src@, opt_text(dist), mnt_type@, options@, check),
        r == !(check && !texts(present@).to_set().contains(src@)),
{
    if check && !is_present(present, src) {
        assert(texts(nodes@) =~= texts(nodes@) + Seq::<Seq<char>>::empty());
        return false;
    }
    let target = match dist {
        Some(d) => string_of(chars_of(d).as_slice()),
        None => trim_leading_slashes(src),
    };
    let mut line: Vec<char> = Vec::new();
    push_str(&mut line, "lxc.mount.entry = ");
    push_str(&mut line, src);
    push_str(&mut line, " ");
    push_str(&mut line, target.as_str());
    push_str(&mut line, " ");
    push_str(&mut line, mnt_type);
    push_str(&mut line, " ");
    push_str(&mut line, options);
    let ghost before = nodes@;
    let entry = string_of(line.as_slice());
    assert(entry@ == entry_line(src@, opt_text(dist), mnt_type@, options@));
    nodes.push(entry);
    assert(texts(nodes@) =~= texts(before) + node(texts(present@).to_set(), src@, opt_text(dist), mnt_type@, options@, check));
    true
}


/// Add the memory and terminal devices.
fn push_core_devices(nodes: &mut Vec<String>, present: &Vec<String>)
    ensures
        texts(final(nodes)@) == texts(old(nodes)@) + core_devices(texts(present@).to_set()),
{
    let ghost start = texts(nodes@);
    add_node_entry(nodes, "tmpfs", Some("dev"), "tmpfs", "nosuid 0 0", false, present);
    add_node_entry(nodes, "/dev/zero", None, "none", FILE_OPT, true, present);
    add_node_entry(nodes, "/dev/null", None, "none", FILE_OPT, true, present);
    add_node_entry(nodes, "/dev/full", None, "none", FILE_OPT, true, present);
    assert(texts(nodes@) =~= start + core_devices(texts(present@).to_set()));
}

/// Add shared memory, fuse, ion and the terminal.
fn push_memory_devices(nodes: &mut Vec<String>, present: &Vec<String>)
    ensures
        texts(final(nodes)@) == texts(old(nodes)@) + memory_devices(texts(present@).to_set()),
{
    let ghost start = texts(nodes@);
    add_node_entry(nodes, "/dev/ashmem", None, "none", FILE_OPT, true, present);
    add_node_entry(nodes, "/dev/fuse", None, "none", FILE_OPT, true, present);
    add_node_entry(nodes, "/dev/ion", None, "none", FILE_OPT, true, present);
    add_node_entry(nodes, "/dev/tty", None, "none", FILE_OPT, true, present);
    assert(texts(nodes@) =~= start + memory_devices(texts(present@).to_set()));
}

/// Add the character device directory and the GPU vendors' devices.
fn push_vendor_gpu_devices(nodes: &mut Vec<String>, present: &Vec<String>)
    ensures
        texts(final(nodes)@) == texts(old(nodes)@) + vendor_gpu_devices(texts(present@).to_set()),
{
    let ghost start = texts(nodes@);
    add_node_entry(nodes, "/dev/char", None, "none", DIR_OPT, true, present);
    add_node_entry(nodes, "/dev/kgsl-3d0", None, "none", FILE_OPT, true, present);
    add_node_entry(nodes, "/dev/mali0", None, "none", FILE_OPT, true, present);
    assert(texts(nodes@) =~= start + vendor_gpu_devices(texts(present@).to_set()));
}

/// Add PowerVR sync, the persistent log and the WSL GPU.
fn push_misc_devices(nodes: &mut Vec<String>, present: &Vec<String>)
    ensures
        texts(final(nodes)@) == texts(old(nodes)@) + misc_devices(texts(present@).to_set()),
{
    let ghost start = texts(nodes@);
    add_node_entry(nodes, "/dev/pvr_sync", None, "none", FILE_OPT, true, present);
    add_node_entry(nodes, "/dev/pmsg0", None, "none", FILE_OPT, true, present);
    add_node_entry(nodes, "/dev/dxg", None, "none", FILE_OPT, true, present);
    assert(texts(nodes@) =~= start + misc_devices(texts(present@).to_set()));
}

/// Add the device nodes every container gets.
fn push_base_devices(nodes: &mut Vec<String>, present: &Vec<String>)
    ensures
        texts(final(nodes)@) == texts(old(nodes)@) + base_devices(texts(present@).to_set()),
{
    let ghost start = texts(nodes@);
    push_core_devices(nodes, present);
    push_memory_devices(nodes, present);
    push_vendor_gpu_devices(nodes, present);
    push_misc_devices(nodes, present);
    assert(texts(nodes@) =~= start + base_devices(texts(present@).to_set()));
}

/// Add a bound device file for each of `paths` the host has.
fn push_device_files(nodes: &mut Vec<String>, paths: &Vec<String>, present: &Vec<String>)
    ensures
        texts(final(nodes)@) == texts(old(nodes)@) + device_files(texts(present@).to_set(), texts(paths@)),
{
    let ghost start = texts(nodes@);
    let mut i: usize = 0;
    while i < paths.len()
        invariant
            i <= paths@.len(),
            texts(nodes@) == start + device_files(texts(present@).to_set(), texts(paths@).take(i as int)),
        decreases paths@.len() - i,
    {
        let ghost mid = texts(nodes@);
        add_node_entry(nodes, paths[i].as_str(), None, "none", FILE_OPT, true, present);
        proof {
            let t = texts(paths@).take(i + 1);
            assert(t.drop_last() =~= texts(paths@).take(i as int));
            assert(t.last() == paths@[i as int]@);
        }
        i = i + 1;
    }
    assert(texts(paths@).take(i as int) =~= texts(paths@));
}

/// Add the GPU's render node and what the globs found.
fn push_gpu_devices(nodes: &mut Vec<String>, host: &NodeHost)
    ensures
        texts(final(nodes)@) == texts(old(nodes)@) + gpu_devices(texts(host.present@).to_set(), *host),
{
    let ghost start = texts(nodes@);
    if !host.render.as_str().is_empty() {
        add_node_entry(nodes, host.render.as_str(), None, "none", FILE_OPT, true, &host.present);
    }
    let ghost rendered = texts(nodes@);
    push_device_files(nodes, &host.framebuffers, &host.present);
    push_device_files(nodes, &host.graphics_framebuffers, &host.present);
    push_device_files(nodes, &host.video, &host.present);
    push_device_files(nodes, &host.dma_heaps, &host.present);
    proof {
        assert(host.render@.len() == 0 ==> rendered =~= start + Seq::<Seq<char>>::empty());
    }
    assert(texts(nodes@) =~= start + gpu_devices(texts(host.present@).to_set(), *host));
}

/// `/dev/` and a device name.
fn dev_path(name: &str) -> (r: String)
    ensures
        r@ == "/dev/"@ + name@,
{
    let mut v: Vec<char> = Vec::new();
    push_str(&mut v, "/dev/");
    push_str(&mut v, name);
    string_of(v.as_slice())
}

/// A name the host gave, or the default.
fn name_or<'a>(name: &'a Option<String>, default: &'a str) -> (r: &'a str)
    ensures
        r@ == or_default(*name, default@),
{
    match name {
        Some(n) => n.as_str(),
        None => default,
    }
}

/// Add the three binder devices.
fn push_binder_devices(nodes: &mut Vec<String>, host: &NodeHost)
    ensures
        texts(final(nodes)@) == texts(old(nodes)@) + binder_devices(texts(host.present@).to_set(), *host),
{
    let ghost start = texts(nodes@);
    let binder = dev_path(name_or(&host.binder, "binder"));
    let vnd = dev_path(name_or(&host.vndbinder, "vndbinder"));
    let hw = dev_path(name_or(&host.hwbinder, "hwbinder"));
    add_node_entry(nodes, binder.as_str(), Some("dev/binder"), "none", FILE_OPT, false, &host.present);
    add_node_entry(nodes, vnd.as_str(), Some("dev/vndbinder"), "none", FILE_OPT, false, &host.present);
    add_node_entry(nodes, hw.as_str(), Some("dev/hwbinder"), "none", FILE_OPT, false, &host.present);
    assert(texts(nodes@) =~= start + binder_devices(texts(host.present@).to_set(), *host));
}

/// Add the host's hwbinder and vendor partition, for a vendor image other
/// than mainline.
fn push_vendor_devices(nodes: &mut Vec<String>, host: &NodeHost)
    ensures
        texts(final(nodes)@) == texts(old(nodes)@) + vendor_devices(texts(host.present@).to_set(), *host),
{
    let ghost start = texts(nodes@);
    let vendor_type = name_or(&host.vendor_type, "MAINLINE");
    if !same_text(vendor_type, "MAINLINE") {
        add_node_entry(nodes, "/dev/hwbinder", Some("dev/host_hwbinder"), "none", FILE_OPT, true, &host.present);
        add_node_entry(nodes, "/vendor", Some("vendor_extra"), "none", "rbind,optional 0 0", true, &host.present);
        assert(texts(nodes@) =~= start + vendor_devices(texts(host.present@).to_set(), *host));
    } else {
        assert(texts(nodes@) =~= start + vendor_devices(texts(host.present@).to_set(), *host));
    }
}

/// Add pseudo terminals, input and networking.
fn push_terminal_devices(nodes: &mut Vec<String>, p: &Vec<String>)
    ensures
        texts(final(nodes)@) == texts(old(nodes)@) + terminal_devices(texts(p@).to_set()),
{
    let ghost start = texts(nodes@);
    add_node_entry(nodes, "none", Some("dev/pts"), "devpts", "defaults,mode=644,ptmxmode=666,create=dir 0 0", false, p);
    add_node_entry(nodes, "/dev/uhid", None, "none", FILE_OPT, true, p);
    add_node_entry(nodes, "/dev/net/tun", Some("dev/tun"), "none", FILE_OPT, true, p);
    add_node_entry(nodes, "/sys/module/lowmemorykiller", None, "none", DIR_OPT, true, p);
    assert(texts(nodes@) =~= start + terminal_devices(texts(p@).to_set()));
}

/// Add the host's permissions, sync and debug.
fn push_host_devices(nodes: &mut Vec<String>, p: &Vec<String>, work: &str)
    ensures
        texts(final(nodes)@) == texts(old(nodes)@) + host_devices(texts(p@).to_set(), work@),
{
    let ghost start = texts(nodes@);
    let mut perms: Vec<char> = Vec::new();
    push_str(&mut perms, work);
    push_str(&mut perms, "/host-permissions");
    let perms = string_of(perms.as_slice());
    add_node_entry(nodes, perms.as_str(), Some("vendor/etc/host-permissions"), "none", "bind,optional 0 0", true, p);
    add_node_entry(nodes, "/dev/sw_sync", None, "none", FILE_OPT, true, p);
    add_node_entry(nodes, "/sys/kernel/debug", None, "none", "rbind,create=dir,optional 0 0", true, p);
    assert(texts(nodes@) =~= start + host_devices(texts(p@).to_set(), work@));
}

/// Add the vibrator and the first MediaTek codec node.
fn push_vibrator_devices(nodes: &mut Vec<String>, p: &Vec<String>)
    ensures
        texts(final(nodes)@) == texts(old(nodes)@) + vibrator_devices(texts(p@).to_set()),
{
    let ghost start = texts(nodes@);
    add_node_entry(nodes, "/sys/class/leds/vibrator", None, "none", DIR_OPT, true, p);
    add_node_entry(nodes, "/sys/devices/virtual/timed_output/vibrator", None, "none", DIR_OPT, true, p);
    add_node_entry(nodes, "/dev/Vcodec", None, "none", FILE_OPT, true, p);
    assert(texts(nodes@) =~= start + vibrator_devices(texts(p@).to_set()));
}

/// Add the rest of the MediaTek nodes.
fn push_mediatek_devices(nodes: &mut Vec<String>, p: &Vec<String>)
    ensures
        texts(final(nodes)@) == texts(old(nodes)@) + mediatek_devices(texts(p@).to_set()),
{
    let ghost start = texts(nodes@);
    add_node_entry(nodes, "/dev/MTK_SMI", None, "none", FILE_OPT, true, p);
    add_node_entry(nodes, "/dev/mdp_sync", None, "none", FILE_OPT, true, p);
    add_node_entry(nodes, "/dev/mtk_cmdq", None, "none", FILE_OPT, true, p);
    assert(texts(nodes@) =~= start + mediatek_devices(texts(p@).to_set()));
}

/// Add the terminals, input, networking, permissions and vendor-specific
/// nodes.
fn push_system_devices(nodes: &mut Vec<String>, host: &NodeHost)
    ensures
        texts(final(nodes)@) == texts(old(nodes)@) + system_devices(texts(host.present@).to_set(), *host),
{
    let ghost start = texts(nodes@);
    push_terminal_devices(nodes, &host.present);
    push_host_devices(nodes, &host.present, host.work.as_str());
    push_vibrator_devices(nodes, &host.present);
    push_mediatek_devices(nodes, &host.present);
    assert(texts(nodes@) =~= start + system_devices(texts(host.present@).to_set(), *host));
}

/// Add the scratch file systems and the last optional binds.
fn push_scratch_mounts(nodes: &mut Vec<String>, present: &Vec<String>)
    ensures
        texts(final(nodes)@) == texts(old(nodes)@) + scratch_mounts(texts(present@).to_set()),
{
    let ghost start = texts(nodes@);
    add_node_entry(nodes, "tmpfs", Some("mnt_extra"), "tmpfs", "nodev 0 0", false, present);
    add_node_entry(nodes, "/mnt/wslg", Some("mnt_extra/wslg"), "none", "rbind,create=dir,optional 0 0", true, present);
    add_node_entry(nodes, "tmpfs", Some("tmp"), "tmpfs", "nodev 0 0", false, present);
    add_node_entry(nodes, "tmpfs", Some("var"), "tmpfs", "nodev 0 0", false, present);
    add_node_entry(nodes, "tmpfs", Some("run"), "tmpfs", "nodev 0 0", false, present);
    add_node_entry(nodes, "/system/etc/libnfc-nci.conf", None, "none", "bind,optional 0 0", true, present);
    assert(texts(nodes@) =~= start + scratch_mounts(texts(present@).to_set()));
}

/// The `lxc.mount.entry` lines for the device nodes and mounts a container
/// gets from this host, in order: what every container gets, the GPU, the
/// binder devices, the vendor's, the rest, and the scratch file systems. A
/// checked entry is there only when the host has its source.
pub fn generate_nodes_lxc_config(host: &NodeHost) -> (r: Vec<String>)
    ensures
        texts(r@) == node_lines(*host),
{
    let mut nodes: Vec<String> = Vec::new();
    assert(texts(nodes@) =~= Seq::<Seq<char>>::empty());
    push_base_devices(&mut nodes, &host.present);
    push_gpu_devices(&mut nodes, host);
    push_binder_devices(&mut nodes, host);
    push_vendor_devices(&mut nodes, host);
    push_system_devices(&mut nodes, host);
    push_scratch_mounts(&mut nodes, &host.present);
    assert(texts(nodes@) =~= node_lines(*host));
    nodes
}

} // verus!
