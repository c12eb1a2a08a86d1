//! `installd`, the native daemon the package manager talks to.
//!
//! On a device it is a root daemon that creates and owns the per-app data
//! directories, labels them, optimizes their bytecode and reports how much
//! space everything takes. `PackageManagerService` waits for it and then asks
//! it about every package it scans.
//!
//! Here the directories are the host's (`<root>/data/data/<package>`), the
//! sizes are what the filesystem says, and the operations that exist only
//! because Android has a device (mounting, labelling, migrating a legacy
//! layout) are answered as what they are: nothing to do. Everything else is
//! refused with a message that names the method.
//!
//! Reading a request decides what has to happen on disk ([`Work`]); whoever
//! holds the disk does it and hands the outcome back, and the reply is built
//! from that outcome.

pub mod code;

use vstd::prelude::*;

use crate::binder::parcel::{
    args_after, args_after_bytes, step_i32, step_i64, step_string, steps_i64,
    steps_string, string16_after, token_bytes, Parcel, Reader,
};
use crate::device::installd::code::{
    CLEAR_APP_DATA, CREATE_APP_DATA, CREATE_APP_DATA_BATCHED, CREATE_USER_DATA, DESTROY_APP_DATA,
    DESTROY_APP_PROFILES, DESTROY_USER_DATA, FIXUP_APP_DATA, GET_APP_SIZE, INVALIDATE_MOUNTS,
    LINK_NATIVE_LIBRARY_DIRECTORY, MIGRATE_APP_DATA, MIGRATE_LEGACY_OBB_DATA, RESTORECON_APP_DATA,
    RM_DEX, SET_FIRST_BOOT,
};
use crate::octets::{get_le32, le32, le64};
use crate::text::{chars_of, decimal_chars, signed_decimal, signed_decimal_chars, string_of};

verus! {

broadcast use vstd::string::group_string_axioms;

/// The interface token every request carries.
pub const IINSTALLD: &'static str = "android.os.IInstalld";

/// The name it is published under, which is how the framework finds it.
pub const NAME: &'static str = "installd";

/// `Status::EX_UNSUPPORTED_OPERATION`.
pub const EX_UNSUPPORTED_OPERATION: i32 = -7;

/// `base` with `part` appended as a path component: an absolute `part`
/// replaces `base`, and a separator goes between them unless `base` is empty
/// or already ends in one.
pub open spec fn joined(base: Seq<char>, part: Seq<char>) -> Seq<char> {
    if part.len() > 0 && part[0] == '/' {
        part
    } else if base.len() > 0 && base.last() != '/' {
        base + seq!['/'] + part
    } else {
        base + part
    }
}

/// `Path::join`, on paths held as text.
pub fn join_path(base: &str, part: &str) -> (r: String)
    ensures
        r@ == joined(base@, part@),
{
    let b = chars_of(base);
    let p = chars_of(part);
    if p.len() > 0 && p[0] == '/' {
        return string_of(p.as_slice());
    }
    let mut out = b;
    if out.len() > 0 && out[out.len() - 1] != '/' {
        out.push('/');
    }
    let mut i: usize = 0;
    let ghost head = out@;
    while i < p.len()
        invariant
            i <= p@.len(),
            out@ == head + p@.take(i as int),
        decreases p@.len() - i,
    {
        out.push(p[i]);
        i = i + 1;
        assert(out@ =~= head + p@.take(i as int));
    }
    assert(p@.take(p@.len() as int) =~= p@);
    assert(out@ =~= joined(base@, part@));
    string_of(out.as_slice())
}

/// `<root>/data`: `/data` as the framework sees it.
pub open spec fn data_path(root: Seq<char>) -> Seq<char> {
    joined(root, "data"@)
}

/// `/data/data/<package>`, the app's own data directory.
pub open spec fn app_data_path(root: Seq<char>, package: Seq<char>) -> Seq<char> {
    joined(joined(data_path(root), "data"@), package)
}

/// `/data/user/<user>`, one user's tree.
pub open spec fn user_root_path(root: Seq<char>, user: i32) -> Seq<char> {
    joined(joined(data_path(root), "user"@), signed_decimal_chars(user as int))
}

/// `/data/user/<user>/<package>`, the per-user view of the app's data.
pub open spec fn user_data_path(root: Seq<char>, user: i32, package: Seq<char>) -> Seq<char> {
    joined(user_root_path(root, user), package)
}

/// `/data/user_de/<user>/<package>`, the device-encrypted view, where the
/// settings provider keeps its database.
pub open spec fn user_de_data_path(root: Seq<char>, user: i32, package: Seq<char>) -> Seq<char> {
    joined(joined(joined(data_path(root), "user_de"@), signed_decimal_chars(user as int)), package)
}

/// `/data/misc/profiles`.
pub open spec fn profiles_path(root: Seq<char>) -> Seq<char> {
    joined(joined(data_path(root), "misc"@), "profiles"@)
}

/// The service, rooted at the runtime bundle, which is where the framework's
/// `/data` lives.
pub struct Installd {
    root: String,
}

impl View for Installd {
    type V = Seq<char>;

    closed spec fn view(&self) -> Seq<char> {
        self.root@
    }
}

impl Installd {
    pub fn new(root: &str) -> (r: Installd)
        ensures
            r@ == root@,
    {
        Installd { root: string_of(chars_of(root).as_slice()) }
    }

    /// The interface this object is.
    pub fn descriptor(&self) -> (r: &'static str)
        ensures
            r@ == IINSTALLD@,
    {
        IINSTALLD
    }

    fn data(&self) -> (r: String)
        ensures
            r@ == data_path(self@),
    {
        proof { reveal_strlit("data"); }
        join_path(self.root.as_str(), "data")
    }

    fn app_data(&self, package: &str) -> (r: String)
        ensures
            r@ == app_data_path(self@, package@),
    {
        proof { reveal_strlit("data"); }
        let d = join_path(self.data().as_str(), "data");
        join_path(d.as_str(), package)
    }

    fn user_root(&self, user: i32) -> (r: String)
        ensures
            r@ == user_root_path(self@, user),
    {
        proof { reveal_strlit("user"); }
        let u = join_path(self.data().as_str(), "user");
        join_path(u.as_str(), signed_decimal(user).as_str())
    }

    fn user_data(&self, user: i32, package: &str) -> (r: String)
        ensures
            r@ == user_data_path(self@, user, package@),
    {
        join_path(self.user_root(user).as_str(), package)
    }

    fn user_de_data(&self, user: i32, package: &str) -> (r: String)
        ensures
            r@ == user_de_data_path(self@, user, package@),
    {
        proof { reveal_strlit("user_de"); }
        let u = join_path(self.data().as_str(), "user_de");
        let n = join_path(u.as_str(), signed_decimal(user).as_str());
        join_path(n.as_str(), package)
    }

    fn profiles(&self) -> (r: String)
        ensures
            r@ == profiles_path(self@),
    {
        proof {
            reveal_strlit("misc");
            reveal_strlit("profiles");
        }
        let m = join_path(self.data().as_str(), "misc");
        join_path(m.as_str(), "profiles")
    }
}


/// The three names one app's data goes by.
#[derive(Debug, Clone, PartialEq, Eq)]
pub struct AppDirs {
    /// `/data/data/<package>`, whose inode is the answer.
    pub main: String,
    /// `/data/user/<user>/<package>`.
    pub user: String,
    /// `/data/user_de/<user>/<package>`.
    pub user_de: String,
}

pub struct AppDirsView {
    pub main: Seq<char>,
    pub user: Seq<char>,
    pub user_de: Seq<char>,
}

impl View for AppDirs {
    type V = AppDirsView;

    open spec fn view(&self) -> AppDirsView {
        AppDirsView { main: self.main@, user: self.user@, user_de: self.user_de@ }
    }
}

/// One package to measure: its code, when the request named where that is,
/// and its data.
#[derive(Debug, Clone, PartialEq, Eq)]
pub struct SizeQuery {
    pub code: Option<String>,
    pub data: String,
}

pub struct SizeQueryView {
    pub code: Option<Seq<char>>,
    pub data: Seq<char>,
}

impl View for SizeQuery {
    type V = SizeQueryView;

    open spec fn view(&self) -> SizeQueryView {
        SizeQueryView {
            code: match self.code {
                Some(c) => Some(c@),
                None => None,
            },
            data: self.data@,
        }
    }
}

/// What a request asks of the disk.
#[derive(Debug, Clone, PartialEq, Eq)]
pub enum Work {
    /// Nothing to do; the answer is empty.
    Nothing,
    /// Make this directory and its parents; the answer is empty whatever
    /// came of it.
    MakeDir(String),
    /// Remove these trees (a missing one is no failure); the answer is empty.
    RemoveTrees(Vec<String>),
    /// Create one app's data (nothing, for a request that names no package);
    /// the answer is its result.
    CreateAppData(Option<AppDirs>),
    /// The same for several apps; the answer is their results.
    CreateAppDataBatched(Vec<Option<AppDirs>>),
    /// Measure these packages; the answer is six values for each.
    Sizes(Vec<SizeQuery>),
    /// A method not implemented; the answer says so.
    Refused(u32),
}

pub enum WorkView {
    Nothing,
    MakeDir(Seq<char>),
    RemoveTrees(Seq<Seq<char>>),
    CreateAppData(Option<AppDirsView>),
    CreateAppDataBatched(Seq<Option<AppDirsView>>),
    Sizes(Seq<SizeQueryView>),
    Refused(u32),
}

pub open spec fn dirs_view(o: Option<AppDirs>) -> Option<AppDirsView> {
    match o {
        Some(d) => Some(d@),
        None => None,
    }
}

impl View for Work {
    type V = WorkView;

    open spec fn view(&self) -> WorkView {
        match self {
            Work::Nothing => WorkView::Nothing,
            Work::MakeDir(p) => WorkView::MakeDir(p@),
            Work::RemoveTrees(ps) => WorkView::RemoveTrees(ps@.map_values(|p: String| p@)),
            Work::CreateAppData(d) => WorkView::CreateAppData(dirs_view(*d)),
            Work::CreateAppDataBatched(ds) => WorkView::CreateAppDataBatched(
                ds@.map_values(|d: Option<AppDirs>| dirs_view(d)),
            ),
            Work::Sizes(qs) => WorkView::Sizes(qs@.map_values(|q: SizeQuery| q@)),
            Work::Refused(c) => WorkView::Refused(*c),
        }
    }
}

/// A string argument as the methods here take one: a null reads as empty.
pub open spec fn text_or_empty(s: Option<Seq<char>>) -> Seq<char> {
    match s {
        Some(t) => t,
        None => Seq::empty(),
    }
}

/// Past the presence word of a parcelable, when there is one.
pub open spec fn past_presence(d: Seq<u8>, at: int) -> int {
    if at + 4 <= d.len() && get_le32(d, at) as i32 == 1 {
        at + 4
    } else {
        at
    }
}

/// One `CreateAppDataArgs` read at `at`, in the order the AIDL declares its
/// fields (uuid, package, user, flags, app id, previous app id, seInfo,
/// target sdk): the package, the user, and where the next read starts.
pub open spec fn step_create_args(d: Seq<u8>, at: int) -> (Seq<char>, i32, int) {
    let a0 = past_presence(d, at);
    let a1 = step_string(d, a0).1;
    let (package, a2) = step_string(d, a1);
    let (user, a3) = step_i32(d, a2);
    let a4 = step_i32(d, a3).1;
    let a5 = step_i32(d, a4).1;
    let a6 = step_i32(d, a5).1;
    let a7 = step_string(d, a6).1;
    let a8 = step_i32(d, a7).1;
    (text_or_empty(package), user, a8)
}

/// `n` of them, one after another.
pub open spec fn steps_create_args(d: Seq<u8>, at: int, n: nat) -> (Seq<(Seq<char>, i32)>, int)
    decreases n,
{
    if n == 0 {
        (seq![], at)
    } else {
        let (vs, a) = steps_create_args(d, at, (n - 1) as nat);
        let (package, user, a2) = step_create_args(d, a);
        (vs.push((package, user)), a2)
    }
}

/// `n` reads give `n` values.
proof fn lemma_steps_create_len(d: Seq<u8>, at: int, n: nat)
    ensures
        steps_create_args(d, at, n).0.len() == n,
    decreases n,
{
    if n > 0 {
        lemma_steps_create_len(d, at, (n - 1) as nat);
    }
}

/// An array of strings read at `at`, the null ones left out.
pub open spec fn step_strings(d: Seq<u8>, at: int) -> (Seq<Seq<char>>, int) {
    let (count, a1) = step_i32(d, at);
    if count <= 0 {
        (seq![], a1)
    } else {
        steps_string(d, a1, count as nat)
    }
}

/// Past an array of int64 read at `at`.
pub open spec fn past_i64s(d: Seq<u8>, at: int) -> int {
    let (count, a1) = step_i32(d, at);
    if count <= 0 {
        a1
    } else {
        steps_i64(d, a1, count as nat).1
    }
}

/// The directories for one app, or none when the request named no package.
pub open spec fn dirs_for(root: Seq<char>, package: Seq<char>, user: i32) -> Option<AppDirsView> {
    if package.len() == 0 {
        None
    } else {
        Some(
            AppDirsView {
                main: app_data_path(root, package),
                user: user_data_path(root, user, package),
                user_de: user_de_data_path(root, user, package),
            },
        )
    }
}

/// What to measure for each package: the code path given at the same place,
/// if any, and the app's data directory.
pub open spec fn size_queries(root: Seq<char>, packages: Seq<Seq<char>>, code_paths: Seq<Seq<char>>) -> Seq<
    SizeQueryView,
> {
    Seq::new(
        packages.len(),
        |i: int|
            SizeQueryView {
                code: if i < code_paths.len() {
                    Some(code_paths[i])
                } else {
                    None
                },
                data: app_data_path(root, packages[i]),
            },
    )
}

/// Whether a method has nothing to do here: invalidating mounts, the first
/// boot, labelling, and moving or repairing an older layout.
pub open spec fn is_nothing_to_do(code: u32) -> bool {
    code == INVALIDATE_MOUNTS || code == SET_FIRST_BOOT || code == RESTORECON_APP_DATA || code
        == MIGRATE_APP_DATA || code == FIXUP_APP_DATA || code == MIGRATE_LEGACY_OBB_DATA
}

/// `createUserData(uuid, user, serial, flags)`: the user's tree.
pub open spec fn plan_create_user(root: Seq<char>, d: Seq<u8>) -> WorkView {
    WorkView::MakeDir(user_root_path(root, step_i32(d, step_string(d, 0).1).0))
}

/// `destroyUserData(uuid, user, flags)`: the user's tree goes.
pub open spec fn plan_destroy_user(root: Seq<char>, d: Seq<u8>) -> WorkView {
    WorkView::RemoveTrees(seq![user_root_path(root, step_i32(d, step_string(d, 0).1).0)])
}

/// `createAppData(args)`.
pub open spec fn plan_create_app(root: Seq<char>, d: Seq<u8>) -> WorkView {
    let (package, user, _) = step_create_args(d, 0);
    WorkView::CreateAppData(dirs_for(root, package, user))
}

/// `createAppDataBatched(args[])`: a count, then that many.
pub open spec fn plan_batched(root: Seq<char>, d: Seq<u8>) -> WorkView {
    let (count, a1) = step_i32(d, 0);
    let n: nat = if count > 0 {
        count as nat
    } else {
        0
    };
    let read = steps_create_args(d, a1, n).0;
    WorkView::CreateAppDataBatched(Seq::new(n, |j: int| dirs_for(root, read[j].0, read[j].1)))
}

/// `clearAppData` and `destroyAppData(uuid, package, user, flags, ceInode)`:
/// the app's data and its per-user view go.
pub open spec fn plan_clear(root: Seq<char>, d: Seq<u8>) -> WorkView {
    let (package, a2) = step_string(d, step_string(d, 0).1);
    let user = step_i32(d, a2).0;
    let p = text_or_empty(package);
    if p.len() == 0 {
        WorkView::Nothing
    } else {
        WorkView::RemoveTrees(seq![app_data_path(root, p), user_data_path(root, user, p)])
    }
}

/// `getAppSize(uuid, packages[], user, flags, appId, ceInodes[], codePaths[])`.
pub open spec fn plan_sizes(root: Seq<char>, d: Seq<u8>) -> WorkView {
    let (packages, a2) = step_strings(d, step_string(d, 0).1);
    let a5 = step_i32(d, step_i32(d, step_i32(d, a2).1).1).1;
    let code_paths = step_strings(d, past_i64s(d, a5)).0;
    WorkView::Sizes(size_queries(root, packages, code_paths))
}

/// `rmdex(codePath, instructionSet)`: the compiled code beside it goes.
pub open spec fn plan_rm_dex(d: Seq<u8>) -> WorkView {
    let p = text_or_empty(step_string(d, 0).0);
    if p.len() == 0 {
        WorkView::Nothing
    } else {
        WorkView::RemoveTrees(seq![joined(p, "oat"@)])
    }
}

/// `destroyAppProfiles(package)`.
pub open spec fn plan_profiles(root: Seq<char>, d: Seq<u8>) -> WorkView {
    let p = text_or_empty(step_string(d, 0).0);
    if p.len() == 0 {
        WorkView::Nothing
    } else {
        WorkView::RemoveTrees(seq![joined(profiles_path(root), p)])
    }
}

/// `linkNativeLibraryDirectory(uuid, package, path, user)`: the directory
/// the framework points the app's native libraries at.
pub open spec fn plan_link(root: Seq<char>, d: Seq<u8>) -> WorkView {
    let p = text_or_empty(step_string(d, step_string(d, 0).1).0);
    if p.len() == 0 {
        WorkView::Nothing
    } else {
        WorkView::MakeDir(joined(app_data_path(root, p), "lib"@))
    }
}

/// What a request with these arguments asks of the disk.
pub open spec fn plan_of(root: Seq<char>, code: u32, d: Seq<u8>) -> WorkView {
    if is_nothing_to_do(code) {
        WorkView::Nothing
    } else if code == CREATE_USER_DATA {
        plan_create_user(root, d)
    } else if code == DESTROY_USER_DATA {
        plan_destroy_user(root, d)
    } else if code == CREATE_APP_DATA {
        plan_create_app(root, d)
    } else if code == CREATE_APP_DATA_BATCHED {
        plan_batched(root, d)
    } else if code == CLEAR_APP_DATA || code == DESTROY_APP_DATA {
        plan_clear(root, d)
    } else if code == GET_APP_SIZE {
        plan_sizes(root, d)
    } else if code == RM_DEX {
        plan_rm_dex(d)
    } else if code == DESTROY_APP_PROFILES {
        plan_profiles(root, d)
    } else if code == LINK_NATIVE_LIBRARY_DIRECTORY {
        plan_link(root, d)
    } else {
        WorkView::Refused(code)
    }
}

fn text_or_empty_of(s: Option<String>) -> (r: String)
    ensures
        r@ == text_or_empty(
            match s {
                Some(t) => Some(t@),
                None => None,
            },
        ),
{
    match s {
        Some(t) => t,
        None => String::new(),
    }
}

/// Read one `CreateAppDataArgs`.
fn read_create_args(reader: &mut Reader) -> (r: (String, i32))
    ensures
        final(reader).data() == old(reader).data(),
        (r.0@, r.1, final(reader).pos()) == step_create_args(old(reader).data(), old(reader).pos()),
{
    reader.parcelable_present();
    let _uuid = reader.string();
    let package = text_or_empty_of(reader.string());
    let user = reader.i32();
    let _flags = reader.i32();
    let _app_id = reader.i32();
    let _previous_app_id = reader.i32();
    let _se_info = reader.string();
    let _target_sdk = reader.i32();
    (package, user)
}

impl Installd {
    fn dirs(&self, package: String, user: i32) -> (r: Option<AppDirs>)
        ensures
            dirs_view(r) == dirs_for(self@, package@, user),
    {
        if package.as_str().is_empty() {
            None
        } else {
            Some(
                AppDirs {
                    main: self.app_data(package.as_str()),
                    user: self.user_data(user, package.as_str()),
                    user_de: self.user_de_data(user, package.as_str()),
                },
            )
        }
    }

    fn plan_create_user(&self, args: &[u8]) -> (w: Work)
        ensures
            w@ == plan_create_user(self@, args@),
    {
        let mut reader = Reader::new(args);
        let _uuid = reader.string();
        let user = reader.i32();
        Work::MakeDir(self.user_root(user))
    }

    fn plan_destroy_user(&self, args: &[u8]) -> (w: Work)
        ensures
            w@ == plan_destroy_user(self@, args@),
    {
        let mut reader = Reader::new(args);
        let _uuid = reader.string();
        let user = reader.i32();
        let mut trees: Vec<String> = Vec::new();
        trees.push(self.user_root(user));
        assert(trees@.map_values(|p: String| p@) =~= seq![user_root_path(self@, user)]);
        Work::RemoveTrees(trees)
    }

    fn plan_create_app(&self, args: &[u8]) -> (w: Work)
        ensures
            w@ == plan_create_app(self@, args@),
    {
        let mut reader = Reader::new(args);
        let (package, user) = read_create_args(&mut reader);
        Work::CreateAppData(self.dirs(package, user))
    }

    fn plan_batched(&self, args: &[u8]) -> (w: Work)
        ensures
            w@ == plan_batched(self@, args@),
    {
        let ghost d = args@;
        let mut reader = Reader::new(args);
        let count = reader.i32();
        let ghost a1 = reader.pos();
        let mut items: Vec<Option<AppDirs>> = Vec::new();
        let mut k: i32 = 0;
        while k < count
            invariant
                0 <= k,
                count > 0 ==> k <= count,
                count <= 0 ==> k == 0,
                reader.data() == d,
                reader.pos() == steps_create_args(d, a1, k as nat).1,
                items@.len() == k,
                forall|j: int|
                    0 <= j < k ==> dirs_view(#[trigger] items@[j]) == dirs_for(
                        self@,
                        steps_create_args(d, a1, k as nat).0[j].0,
                        steps_create_args(d, a1, k as nat).0[j].1,
                    ),
            decreases count - k,
        {
            let ghost before = steps_create_args(d, a1, k as nat);
            let (package, user) = read_create_args(&mut reader);
            let item = self.dirs(package, user);
            items.push(item);
            proof {
                lemma_steps_create_len(d, a1, k as nat);
                let after = steps_create_args(d, a1, (k + 1) as nat);
                assert(after.0 == before.0.push((package@, user)));
                assert forall|j: int| 0 <= j < k + 1 implies dirs_view(#[trigger] items@[j]) == dirs_for(
                    self@,
                    after.0[j].0,
                    after.0[j].1,
                ) by {
                    if j < k {
                        assert(after.0[j] == before.0[j]);
                    }
                }
            }
            k = k + 1;
        }
        proof {
            let n: nat = if count > 0 {
                count as nat
            } else {
                0
            };
            assert(k as nat == n);
            let read = steps_create_args(d, a1, n).0;
            assert(items@.map_values(|o: Option<AppDirs>| dirs_view(o)) =~= Seq::new(
                n,
                |j: int| dirs_for(self@, read[j].0, read[j].1),
            ));
        }
        Work::CreateAppDataBatched(items)
    }

    fn plan_clear(&self, args: &[u8]) -> (w: Work)
        ensures
            w@ == plan_clear(self@, args@),
    {
        let mut reader = Reader::new(args);
        let _uuid = reader.string();
        let package = text_or_empty_of(reader.string());
        let user = reader.i32();
        if package.as_str().is_empty() {
            Work::Nothing
        } else {
            let mut trees: Vec<String> = Vec::new();
            trees.push(self.app_data(package.as_str()));
            trees.push(self.user_data(user, package.as_str()));
            assert(trees@.map_values(|p: String| p@) =~= seq![
                app_data_path(self@, package@),
                user_data_path(self@, user, package@),
            ]);
            Work::RemoveTrees(trees)
        }
    }

    fn plan_sizes(&self, args: &[u8]) -> (w: Work)
        ensures
            w@ == plan_sizes(self@, args@),
    {
        let ghost d = args@;
        let mut reader = Reader::new(args);
        let _uuid = reader.string();
        let ghost a1 = reader.pos();
        let packages = reader.strings();
        assert(packages@.map_values(|p: String| p@) =~= step_strings(d, a1).0);
        let _user = reader.i32();
        let _flags = reader.i32();
        let _app_id = reader.i32();
        let ghost a5 = reader.pos();
        let _inodes = reader.i64s();
        assert(reader.pos() == past_i64s(d, a5));
        let ghost a6 = reader.pos();
        let code_paths = reader.strings();
        assert(code_paths@.map_values(|p: String| p@) =~= step_strings(d, a6).0);
        let ghost want = size_queries(
            self@,
            packages@.map_values(|p: String| p@),
            code_paths@.map_values(|p: String| p@),
        );
        let mut queries: Vec<SizeQuery> = Vec::new();
        let mut i: usize = 0;
        while i < packages.len()
            invariant
                i <= packages@.len(),
                want == size_queries(
                    self@,
                    packages@.map_values(|p: String| p@),
                    code_paths@.map_values(|p: String| p@),
                ),
                queries@.len() == i,
                forall|j: int| 0 <= j < i ==> (#[trigger] queries@[j])@ == want[j],
            decreases packages@.len() - i,
        {
            let code = if i < code_paths.len() {
                Some(code_paths[i].clone())
            } else {
                None
            };
            let q = SizeQuery { code, data: self.app_data(packages[i].as_str()) };
            queries.push(q);
            i = i + 1;
        }
        proof {
            assert(queries@.map_values(|q: SizeQuery| q@) =~= want);
        }
        Work::Sizes(queries)
    }

    fn plan_rm_dex(&self, args: &[u8]) -> (w: Work)
        ensures
            w@ == plan_rm_dex(args@),
    {
        proof { reveal_strlit("oat"); }
        let mut reader = Reader::new(args);
        let code_path = text_or_empty_of(reader.string());
        if code_path.as_str().is_empty() {
            Work::Nothing
        } else {
            let mut trees: Vec<String> = Vec::new();
            trees.push(join_path(code_path.as_str(), "oat"));
            assert(trees@.map_values(|p: String| p@) =~= seq![joined(code_path@, "oat"@)]);
            Work::RemoveTrees(trees)
        }
    }

    fn plan_profiles(&self, args: &[u8]) -> (w: Work)
        ensures
            w@ == plan_profiles(self@, args@),
    {
        let mut reader = Reader::new(args);
        let package = text_or_empty_of(reader.string());
        if package.as_str().is_empty() {
            Work::Nothing
        } else {
            let mut trees: Vec<String> = Vec::new();
            trees.push(join_path(self.profiles().as_str(), package.as_str()));
            assert(trees@.map_values(|p: String| p@) =~= seq![joined(profiles_path(self@), package@)]);
            Work::RemoveTrees(trees)
        }
    }

    fn plan_link(&self, args: &[u8]) -> (w: Work)
        ensures
            w@ == plan_link(self@, args@),
    {
        proof { reveal_strlit("lib"); }
        let mut reader = Reader::new(args);
        let _uuid = reader.string();
        let package = text_or_empty_of(reader.string());
        if package.as_str().is_empty() {
            Work::Nothing
        } else {
            Work::MakeDir(join_path(self.app_data(package.as_str()).as_str(), "lib"))
        }
    }

    /// What a request asks of the disk, read from its arguments in the order
    /// the interface declares them.
    pub fn plan(&self, code: u32, data: &[u8]) -> (w: Work)
        ensures
            w@ == plan_of(self@, code, args_after_bytes(data@, token_bytes(IINSTALLD@))),
    {
        proof {
            reveal_strlit("android.os.IInstalld");
        }
        let args = args_after(data, IINSTALLD);
        if code == INVALIDATE_MOUNTS || code == SET_FIRST_BOOT || code == RESTORECON_APP_DATA || code
            == MIGRATE_APP_DATA || code == FIXUP_APP_DATA || code == MIGRATE_LEGACY_OBB_DATA {
            Work::Nothing
        } else if code == CREATE_USER_DATA {
            self.plan_create_user(args)
        } else if code == DESTROY_USER_DATA {
            self.plan_destroy_user(args)
        } else if code == CREATE_APP_DATA {
            self.plan_create_app(args)
        } else if code == CREATE_APP_DATA_BATCHED {
            self.plan_batched(args)
        } else if code == CLEAR_APP_DATA || code == DESTROY_APP_DATA {
            self.plan_clear(args)
        } else if code == GET_APP_SIZE {
            self.plan_sizes(args)
        } else if code == RM_DEX {
            self.plan_rm_dex(args)
        } else if code == DESTROY_APP_PROFILES {
            self.plan_profiles(args)
        } else if code == LINK_NATIVE_LIBRARY_DIRECTORY {
            self.plan_link(args)
        } else {
            Work::Refused(code)
        }
    }
}

/// What came of creating one app's data directory.
#[derive(Debug, Clone, PartialEq, Eq)]
pub enum Created {
    /// It exists now; this is its inode.
    Inode(u64),
    /// It could not be made, for this reason.
    Failed(String),
}

/// The fields of a `CreateAppDataResult` for an outcome: the inode, or the
/// error and its reason. A request that named no package made nothing and
/// answers with zeros. A failure is reported in the result itself rather
/// than as an exception, because the answer is per package.
pub open spec fn created_fields(o: Option<Created>) -> (i64, i32, Seq<char>) {
    match o {
        None => (0, 0, Seq::empty()),
        Some(Created::Inode(n)) => (n as i64, 0, Seq::empty()),
        Some(Created::Failed(m)) => (0, EX_UNSUPPORTED_OPERATION, m@),
    }
}

/// The body of a `CreateAppDataResult`: the inode, the error, the message.
pub open spec fn result_body(inode: i64, error: i32, message: Seq<char>) -> Seq<u8> {
    string16_after(le64(inode as u64) + le32(error as u32), message)
}

/// One `CreateAppDataResult`, with the length word every AIDL parcelable
/// carries: the length (which covers itself), then the fields.
pub open spec fn result_bytes(inode: i64, error: i32, message: Seq<char>) -> Seq<u8> {
    let body = result_body(inode, error, message);
    le32((body.len() + 4) as u32) + body
}

/// Whether an outcome's result has a length the length word can hold.
pub open spec fn fits(o: Option<Created>) -> bool {
    let (inode, error, message) = created_fields(o);
    result_body(inode, error, message).len() + 4 <= i32::MAX
}

/// The result for one outcome.
pub open spec fn outcome_bytes(o: Option<Created>) -> Seq<u8> {
    let (inode, error, message) = created_fields(o);
    result_bytes(inode, error, message)
}

/// Results written one after another after `before`.
pub open spec fn results_after(before: Seq<u8>, outcomes: Seq<Option<Created>>) -> Seq<u8>
    decreases outcomes.len(),
{
    if outcomes.len() == 0 {
        before
    } else {
        results_after(before, outcomes.drop_last()) + outcome_bytes(outcomes.last())
    }
}

/// The answer to a batch: how many results, then each of them.
pub open spec fn batched_bytes(outcomes: Seq<Option<Created>>) -> Seq<u8> {
    results_after(le32(outcomes.len() as u32), outcomes)
}

/// The six values for each package, written after `before`: code, data and
/// cache, then the three external sizes, which a host with no emulated
/// external storage reports as zero.
pub open spec fn sizes_after(before: Seq<u8>, sizes: Seq<(i64, i64)>) -> Seq<u8>
    decreases sizes.len(),
{
    if sizes.len() == 0 {
        before
    } else {
        let (code, data) = sizes.last();
        sizes_after(before, sizes.drop_last()) + le64(code as u64) + le64(data as u64) + le64(0)
            + le64(0) + le64(0) + le64(0)
    }
}

/// The answer to `getAppSize`: how many values, then six for each package.
pub open spec fn sizes_bytes(sizes: Seq<(i64, i64)>) -> Seq<u8> {
    sizes_after(le32((sizes.len() * 6) as u32), sizes)
}

/// What a refusal says.
pub open spec fn refusal_message(code: u32) -> Seq<char> {
    "installd method "@ + decimal_chars(code as nat) + " is not implemented"@
}

/// A refusal: the exception code, its message, and the empty remote stack
/// trace header the reader expects after it.
pub open spec fn refusal_bytes(code: u32) -> Seq<u8> {
    string16_after(le32(EX_UNSUPPORTED_OPERATION as u32), refusal_message(code)) + le32(0)
}

fn fields_of(o: &Option<Created>) -> (r: (i64, i32, String))
    ensures
        (r.0, r.1, r.2@) == created_fields(*o),
{
    match o {
        None => (0, 0, String::new()),
        Some(Created::Inode(n)) => (*n as i64, 0, String::new()),
        Some(Created::Failed(m)) => (0, EX_UNSUPPORTED_OPERATION, m.clone()),
    }
}

fn push_result(out: &mut Parcel, o: &Option<Created>)
    requires
        fits(*o),
    ensures
        final(out)@ == old(out)@ + outcome_bytes(*o),
{
    let (inode, error, message) = fields_of(o);
    let mut body = Parcel::new();
    body.i64(inode);
    body.i32(error);
    body.string16(message.as_str());
    let body = body.into_bytes();
    assert(Seq::<u8>::empty() + le64(inode as u64) + le32(error as u32) =~= le64(inode as u64) + le32(
        error as u32,
    ));
    out.i32(body.len() as i32 + 4);
    out.raw(body.as_slice());
    assert(final(out)@ =~= old(out)@ + outcome_bytes(*o));
}

impl Installd {
    /// The answer to `createAppData`, once the directory has been made (or
    /// not).
    pub fn created_reply(outcome: &Option<Created>) -> (r: Vec<u8>)
        requires
            fits(*outcome),
        ensures
            r@ == outcome_bytes(*outcome),
    {
        let mut out = Parcel::new();
        push_result(&mut out, outcome);
        assert(Seq::<u8>::empty() + outcome_bytes(*outcome) =~= outcome_bytes(*outcome));
        out.into_bytes()
    }

    /// The answer to `createAppDataBatched`, once each directory has been
    /// made (or not).
    pub fn batched_reply(outcomes: &Vec<Option<Created>>) -> (r: Vec<u8>)
        requires
            outcomes@.len() <= i32::MAX,
            forall|i: int| 0 <= i < outcomes@.len() ==> fits(#[trigger] outcomes@[i]),
        ensures
            r@ == batched_bytes(outcomes@),
    {
        let mut out = Parcel::new();
        out.i32(outcomes.len() as i32);
        let ghost start = out@;
        assert(start =~= le32(outcomes@.len() as u32));
        let mut i: usize = 0;
        while i < outcomes.len()
            invariant
                i <= outcomes@.len(),
                forall|k: int| 0 <= k < outcomes@.len() ==> fits(#[trigger] outcomes@[k]),
                out@ == results_after(start, outcomes@.take(i as int)),
            decreases outcomes@.len() - i,
        {
            push_result(&mut out, &outcomes[i]);
            proof {
                let t = outcomes@.take(i + 1);
                assert(t.drop_last() =~= outcomes@.take(i as int));
                assert(t.last() == outcomes@[i as int]);
            }
            i = i + 1;
        }
        assert(outcomes@.take(outcomes@.len() as int) =~= outcomes@);
        out.into_bytes()
    }

    /// The answer to `getAppSize`, given the code and data size of each
    /// package in the order they were asked about.
    pub fn sizes_reply(sizes: &Vec<(i64, i64)>) -> (r: Vec<u8>)
        requires
            sizes@.len() <= u32::MAX,
        ensures
            r@ == sizes_bytes(sizes@),
    {
        let mut out = Parcel::new();
        let n: u64 = sizes.len() as u64 * 6;
        out.i32(n as u32 as i32);
        let ghost start = out@;
        proof {
            assert((n as u32 as i32) as u32 == n as u32) by (bit_vector);
            assert(start =~= le32((sizes@.len() * 6) as u32));
        }
        let mut i: usize = 0;
        while i < sizes.len()
            invariant
                i <= sizes@.len(),
                out@ == sizes_after(start, sizes@.take(i as int)),
            decreases sizes@.len() - i,
        {
            let (code, data) = sizes[i];
            out.i64(code);
            out.i64(data);
            out.i64(0);
            out.i64(0);
            out.i64(0);
            out.i64(0);
            proof {
                let t = sizes@.take(i + 1);
                assert(t.drop_last() =~= sizes@.take(i as int));
                assert(t.last() == sizes@[i as int]);
            }
            i = i + 1;
        }
        assert(sizes@.take(sizes@.len() as int) =~= sizes@);
        out.into_bytes()
    }

    /// The answer to a method not implemented here: a refusal that names it.
    pub fn refusal(code: u32) -> (r: Vec<u8>)
        ensures
            r@ == refusal_bytes(code),
    {
        proof {
            reveal_strlit("installd method ");
            reveal_strlit(" is not implemented");
        }
        let mut text: Vec<char> = Vec::new();
        crate::text::push_str(&mut text, "installd method ");
        crate::text::push_decimal(&mut text, code as u64);
        crate::text::push_str(&mut text, " is not implemented");
        assert(text@ =~= refusal_message(code));
        let message = string_of(text.as_slice());
        let mut out = Parcel::new();
        out.i32(EX_UNSUPPORTED_OPERATION);
        out.string16(message.as_str());
        out.i32(0);
        assert(Seq::<u8>::empty() + le32(EX_UNSUPPORTED_OPERATION as u32) =~= le32(
            EX_UNSUPPORTED_OPERATION as u32,
        ));
        out.into_bytes()
    }
}

} // verus!
