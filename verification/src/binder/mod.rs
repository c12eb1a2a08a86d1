//! Userspace Binder: the per-process handle tables, the wire format of the
//! data plane, and the parcels the broker writes for the services it hosts.

pub mod broker;
pub mod parcel;
pub mod service;
pub mod table;
pub mod transport;
pub mod wire;

use vstd::prelude::*;

use crate::binder::parcel::{string16_after, Parcel};
use crate::octets::le32;
use crate::broker::registry::Package;
use crate::text::{decimal_chars, join, push_decimal, push_join, push_str, string_of};

verus! {

/// A process connected to the broker, as the broker numbers them.
pub type ClientId = u32;

/// The service manager's handle, which is 0 in every process.
pub const SERVICE_MANAGER: ClientId = 0;

/// A process-local reference to a Binder object.
#[derive(Debug, Clone, Copy, PartialEq, Eq, Hash)]
pub struct Handle {
    pub node: u64,
    pub owner: u32,
}

impl Handle {
    pub fn new(node: u64, owner: u32) -> (h: Self)
        ensures
            h.node == node,
            h.owner == owner,
    {
        Handle { node, owner }
    }
}

/// What starting an app says while app processes are not started yet.
pub open spec fn launch_text(name: Seq<char>, uid: u32, data_dir: Seq<char>, runtime: Seq<char>, extra: Seq<Seq<char>>) -> Seq<char> {
    "app process launch is not implemented yet. "@ + name + " is installed (uid "@ + decimal_chars(uid as nat)
        + ", data "@ + data_dir + ") and the runtime bundle is at "@ + runtime
        + ", but starting an ART process from it is Phase 2"@ + if extra.len() == 0 {
        Seq::empty()
    } else {
        " (extra args: "@ + join(extra, seq![' ']) + ")"@
    }
}

/// Start an app process from the runtime bundle at `runtime`.
///
/// Until a DEX runs on host-native ART this reports what it would do rather
/// than pretending to succeed.
pub fn launch_app(package: &Package, runtime: &str, extra: &Vec<String>) -> (r: Result<(), String>)
    ensures
        r is Err,
        r->Err_0@ == launch_text(
            package.name@,
            package.uid,
            package.data_dir@,
            runtime@,
            extra@.map_values(|e: String| e@),
        ),
{
    let mut v: Vec<char> = Vec::new();
    push_str(&mut v, "app process launch is not implemented yet. ");
    push_str(&mut v, package.name.as_str());
    push_str(&mut v, " is installed (uid ");
    push_decimal(&mut v, package.uid as u64);
    push_str(&mut v, ", data ");
    push_str(&mut v, package.data_dir.as_str());
    push_str(&mut v, ") and the runtime bundle is at ");
    push_str(&mut v, runtime);
    push_str(&mut v, ", but starting an ART process from it is Phase 2");
    if extra.len() > 0 {
        let mut words: Vec<Vec<char>> = Vec::new();
        let mut i: usize = 0;
        while i < extra.len()
            invariant
                i <= extra@.len(),
                words@.len() == i,
                forall|k: int| 0 <= k < i ==> (#[trigger] words@[k])@ == extra@[k]@,
            decreases extra@.len() - i,
        {
            words.push(crate::text::chars_of(extra[i].as_str()));
            i = i + 1;
        }
        assert(words@.map_values(|p: Vec<char>| p@) =~= extra@.map_values(|e: String| e@));
        push_str(&mut v, " (extra args: ");
        push_join(&mut v, &words, " ");
        push_str(&mut v, ")");
        proof {
            reveal_strlit(" ");
            assert(" "@ =~= seq![' ']);
        }
    }
    Err(string_of(v.as_slice()))
}

/// An object a hosted service creates and hands to its caller.
#[derive(Debug, Clone, PartialEq, Eq, Structural)]
pub enum Hosted {
    /// An iterator over fabricated overlays, of which there are none.
    OverlayIterator,
    /// A wake lock, held until it is released.
    WakeLock,
    /// The token for a display, by its id.
    DisplayToken { id: u64 },
    /// A surface composer connection.
    ComposerConnection,
    /// A display event connection, whose receive channel the host end
    /// creates when it hosts it.
    DisplayEventConnection,
    /// A surface handle.
    SurfaceHandle,
    /// A buffer producer.
    BufferProducer,
}

/// An object an answer hands back to its caller.
#[derive(Debug, Clone, PartialEq, Eq)]
pub enum Handed {
    /// It is already exported, under this node: the caller wants a handle to it.
    Node(u64),
    /// It is new, and belongs to no one until the broker hosts it. `key`
    /// gives it an identity: two calls that name the same key hand back the
    /// same object.
    New { key: Option<String>, object: Hosted },
}

/// A handed object as a value.
pub enum HandedView {
    Node(u64),
    New { key: Option<Seq<char>>, object: Hosted },
}

impl View for Handed {
    type V = HandedView;

    open spec fn view(&self) -> HandedView {
        match self {
            Handed::Node(n) => HandedView::Node(*n),
            Handed::New { key, object } => HandedView::New {
                key: match key {
                    Some(k) => Some(k@),
                    None => None,
                },
                object: *object,
            },
        }
    }
}

/// A binder object inside an answer: where its word sits, and what to hand
/// the caller.
#[derive(Debug, Clone, PartialEq, Eq)]
pub struct ObjectRef {
    pub offset: u32,
    pub object: Handed,
}

/// A call a hosted service wants made once its answer has been delivered.
#[derive(Debug, Clone, PartialEq, Eq)]
pub struct PendingCall {
    /// A handle in the caller's table: the object the caller passed in.
    pub handle: u32,
    pub code: u32,
    pub data: Vec<u8>,
}

/// What a binder object answered: the parcel body the caller reads, the
/// binder objects inside it, the calls to make once it is delivered, and
/// where in it descriptors go.
#[derive(Debug, Clone, PartialEq, Eq)]
pub struct Answer {
    pub data: Vec<u8>,
    pub objects: Vec<ObjectRef>,
    pub calls: Vec<PendingCall>,
    pub fds: Vec<u32>,
}

impl Answer {
    /// An answer that is these bytes and nothing else.
    pub fn of(data: Vec<u8>) -> (a: Answer)
        ensures
            a.data@ == data@,
            a.objects@.len() == 0,
            a.calls@.len() == 0,
            a.fds@.len() == 0,
    {
        Answer { data, objects: Vec::new(), calls: Vec::new(), fds: Vec::new() }
    }

    /// The same answer, handing back an object whose word is at `offset`.
    pub fn handing(self, offset: u32, object: Handed) -> (a: Answer)
        ensures
            a.data@ == self.data@,
            a.objects@.len() == self.objects@.len() + 1,
            forall|i: int| 0 <= i < self.objects@.len() ==> a.objects@[i] == self.objects@[i],
            a.objects@.last().offset == offset,
            a.objects@.last().object@ == object@,
            a.calls@ == self.calls@,
            a.fds@ == self.fds@,
    {
        let mut a = self;
        a.objects.push(ObjectRef { offset, object });
        a
    }

    /// The same answer, with a descriptor whose word is at `offset`.
    pub fn handing_fd(self, offset: u32) -> (a: Answer)
        ensures
            a.data@ == self.data@,
            a.objects@ == self.objects@,
            a.calls@ == self.calls@,
            a.fds@ == self.fds@.push(offset),
    {
        let mut a = self;
        a.fds.push(offset);
        a
    }
}

/// The AIDL exception code for a method a service does not implement.
pub const EX_UNSUPPORTED_OPERATION: i32 = -7;

/// What a refusal says: the interface and the method.
pub open spec fn refusal_text(descriptor: Seq<char>, code: u32) -> Seq<char> {
    descriptor + " method "@ + decimal_chars(code as nat) + " is not implemented"@
}

/// A refusal as generated code writes one for `UNKNOWN_TRANSACTION`: the
/// unsupported-operation status, a message naming the interface and the
/// method, and a zero.
pub open spec fn refusal_bytes(descriptor: Seq<char>, code: u32) -> Seq<u8> {
    string16_after(le32(EX_UNSUPPORTED_OPERATION as u32), refusal_text(descriptor, code)) + le32(0)
}

/// The reply to a method this service does not implement.
pub fn refusal(descriptor: &str, code: u32) -> (r: Vec<u8>)
    ensures
        r@ == refusal_bytes(descriptor@, code),
{
    let mut v: Vec<char> = Vec::new();
    push_str(&mut v, descriptor);
    push_str(&mut v, " method ");
    push_decimal(&mut v, code as u64);
    push_str(&mut v, " is not implemented");
    let text = string_of(v.as_slice());
    let mut reply = Parcel::new();
    reply.i32(EX_UNSUPPORTED_OPERATION);
    reply.string16(text.as_str());
    reply.i32(0);
    reply.into_bytes()
}

} // verus!
