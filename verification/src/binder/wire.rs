//! The Binder data plane: frames on a Unix socket, carrying descriptors.
//!
//! Separate from the control plane, which is JSON and carries no
//! descriptors. A connection says which it is in its first four bytes: the
//! magic below, or a length prefix. The magic read as a length is far past
//! [`MAX_FRAME`], so the two cannot be mistaken for each other.
//!
//! The header is fixed size and big-endian, because the C shim writes it too:
//! the kind, the version, two zero bytes, three words `a`, `b` and `c`, the
//! 64-bit `node`, the body's length and the number of descriptors.

use vstd::prelude::*;

use crate::octets::{
    be32, be64, get_be32, get_be64, lemma_be32_at, lemma_be64_at, push_be32, push_be64,
    push_bytes, read_be32, read_be64,
};
use crate::text::{decimal, decimal_chars, push_str, string_of};

verus! {

broadcast use vstd::string::group_string_axioms;

/// The first four bytes on a Binder connection: `MSBD`.
pub const MAGIC: [u8; 4] = [0x4d, 0x53, 0x42, 0x44];
/// Refuse absurd frames rather than allocating on a hostile length.
pub const MAX_FRAME: usize = 0x100_0000;
/// As many descriptors as one transaction may carry.
pub const MAX_FDS: usize = 32;
/// The transaction is oneway and owes no reply.
pub const TF_ONE_WAY: u32 = 0x01;

/// The size of the fixed header.
pub const HEADER: usize = 32;
/// The version this side speaks.
pub const VERSION: u8 = 1;

pub const KIND_TRANSACTION: u8 = 0;
pub const KIND_REPLY: u8 = 1;
pub const KIND_ACQUIRE: u8 = 2;
pub const KIND_RELEASE: u8 = 3;
pub const KIND_INCREFS: u8 = 4;
pub const KIND_DECREFS: u8 = 5;
pub const KIND_DEAD: u8 = 6;
pub const KIND_INCOMING: u8 = 7;
pub const KIND_BYE: u8 = 8;
pub const KIND_EXPORT: u8 = 9;
pub const KIND_LOOKUP: u8 = 10;
pub const KIND_FOUND: u8 = 11;
pub const KIND_INCOMING_REPLY: u8 = 12;
pub const KIND_LINK: u8 = 13;
pub const KIND_UNLINK: u8 = 14;

/// A handle that names nothing, for [`Message::Found`].
pub const NO_HANDLE: u32 = 0xffff_ffff;

/// Where the object count sits in a message whose header field also carries
/// something else (a transaction's flags): the upper half of `flags`, whose
/// low bits are all any reader uses.
pub const OBJECT_SHIFT: u32 = 16;

/// A binder object among a transaction's arguments: where it sits in the
/// data, and what it is. `node` is the sender's own object, or `0` when the
/// four bytes at `offset` are a handle in the sender's table.
#[derive(Debug, Clone, Copy, PartialEq, Eq, Structural)]
pub struct ArgumentRef {
    pub offset: u32,
    pub node: u64,
}

/// One message on the data plane.
#[derive(Debug, Clone, PartialEq, Eq)]
pub enum Message {
    /// A transaction. The handle is in the sender's table; `id` names the
    /// request so a late answer can be told apart.
    Transaction { id: u32, handle: u32, code: u32, flags: u32, data: Vec<u8>, objects: Vec<ArgumentRef> },
    /// The answer to a transaction. `status` is negative on failure;
    /// `objects` are the offsets of the binder objects inside `data`.
    Reply { id: u32, status: i32, data: Vec<u8>, objects: Vec<u32> },
    /// A strong reference taken.
    Acquire { handle: u32 },
    /// A strong reference dropped.
    Release { handle: u32 },
    /// A weak reference taken.
    IncRefs { handle: u32 },
    /// A weak reference dropped.
    DecRefs { handle: u32 },
    /// A service this process was using has died.
    Dead { handle: u32 },
    /// The broker asking the owner of a node to run a transaction.
    Incoming { id: u32, node: u64, code: u32, flags: u32, data: Vec<u8>, objects: Vec<u32> },
    /// The answer to an [`Message::Incoming`].
    IncomingReply { id: u32, node: u64, status: i32, data: Vec<u8>, objects: Vec<u32> },
    /// Publish a name for a node this process owns.
    Export { name: String, node: u64 },
    /// Ask for the handle of a name.
    Lookup { id: u32, name: String },
    /// The answer to a [`Message::Lookup`]. `NO_HANDLE` means no such name.
    Found { id: u32, handle: u32, node: u64, owner: u32 },
    /// Ask to be told when the owner of a handle goes away.
    LinkToDeath { handle: u32 },
    /// Stop asking.
    UnlinkToDeath { handle: u32 },
    /// The session is over.
    Bye,
}

/// A message as a value: the same variants, with sequences for the bytes,
/// the objects and the names.
pub enum MessageView {
    Transaction { id: u32, handle: u32, code: u32, flags: u32, data: Seq<u8>, objects: Seq<ArgumentRef> },
    Reply { id: u32, status: i32, data: Seq<u8>, objects: Seq<u32> },
    Acquire { handle: u32 },
    Release { handle: u32 },
    IncRefs { handle: u32 },
    DecRefs { handle: u32 },
    Dead { handle: u32 },
    Incoming { id: u32, node: u64, code: u32, flags: u32, data: Seq<u8>, objects: Seq<u32> },
    IncomingReply { id: u32, node: u64, status: i32, data: Seq<u8>, objects: Seq<u32> },
    Export { name: Seq<char>, node: u64 },
    Lookup { id: u32, name: Seq<char> },
    Found { id: u32, handle: u32, node: u64, owner: u32 },
    LinkToDeath { handle: u32 },
    UnlinkToDeath { handle: u32 },
    Bye,
}

impl View for Message {
    type V = MessageView;

    open spec fn view(&self) -> MessageView {
        match self {
            Message::Transaction { id, handle, code, flags, data, objects } => MessageView::Transaction {
                id: *id,
                handle: *handle,
                code: *code,
                flags: *flags,
                data: data@,
                objects: objects@,
            },
            Message::Reply { id, status, data, objects } => MessageView::Reply {
                id: *id,
                status: *status,
                data: data@,
                objects: objects@,
            },
            Message::Acquire { handle } => MessageView::Acquire { handle: *handle },
            Message::Release { handle } => MessageView::Release { handle: *handle },
            Message::IncRefs { handle } => MessageView::IncRefs { handle: *handle },
            Message::DecRefs { handle } => MessageView::DecRefs { handle: *handle },
            Message::Dead { handle } => MessageView::Dead { handle: *handle },
            Message::Incoming { id, node, code, flags, data, objects } => MessageView::Incoming {
                id: *id,
                node: *node,
                code: *code,
                flags: *flags,
                data: data@,
                objects: objects@,
            },
            Message::IncomingReply { id, node, status, data, objects } => MessageView::IncomingReply {
                id: *id,
                node: *node,
                status: *status,
                data: data@,
                objects: objects@,
            },
            Message::Export { name, node } => MessageView::Export { name: name@, node: *node },
            Message::Lookup { id, name } => MessageView::Lookup { id: *id, name: name@ },
            Message::Found { id, handle, node, owner } => MessageView::Found {
                id: *id,
                handle: *handle,
                node: *node,
                owner: *owner,
            },
            Message::LinkToDeath { handle } => MessageView::LinkToDeath { handle: *handle },
            Message::UnlinkToDeath { handle } => MessageView::UnlinkToDeath { handle: *handle },
            Message::Bye => MessageView::Bye,
        }
    }
}

/// The kind byte a message is framed with.
pub open spec fn kind_of(m: MessageView) -> u8 {
    match m {
        MessageView::Transaction { .. } => KIND_TRANSACTION,
        MessageView::Reply { .. } => KIND_REPLY,
        MessageView::Acquire { .. } => KIND_ACQUIRE,
        MessageView::Release { .. } => KIND_RELEASE,
        MessageView::IncRefs { .. } => KIND_INCREFS,
        MessageView::DecRefs { .. } => KIND_DECREFS,
        MessageView::Dead { .. } => KIND_DEAD,
        MessageView::Incoming { .. } => KIND_INCOMING,
        MessageView::IncomingReply { .. } => KIND_INCOMING_REPLY,
        MessageView::Export { .. } => KIND_EXPORT,
        MessageView::Lookup { .. } => KIND_LOOKUP,
        MessageView::Found { .. } => KIND_FOUND,
        MessageView::LinkToDeath { .. } => KIND_LINK,
        MessageView::UnlinkToDeath { .. } => KIND_UNLINK,
        MessageView::Bye => KIND_BYE,
    }
}

/// Flags with an object count in their upper half.
pub open spec fn with_count(flags: u32, count: nat) -> u32 {
    flags | ((count as u32) << OBJECT_SHIFT)
}

/// The header's `(a, b, c, node)` for a message.
pub open spec fn header_words(m: MessageView) -> (u32, u32, u32, u64) {
    match m {
        MessageView::Transaction { id, handle, code, flags, objects, .. } => (
            handle,
            code,
            with_count(flags, objects.len()),
            id as u64,
        ),
        MessageView::Reply { id, status, objects, .. } => (status as u32, id, objects.len() as u32, 0),
        MessageView::Acquire { handle } => (handle, 0, 0, 0),
        MessageView::Release { handle } => (handle, 0, 0, 0),
        MessageView::IncRefs { handle } => (handle, 0, 0, 0),
        MessageView::DecRefs { handle } => (handle, 0, 0, 0),
        MessageView::Dead { handle } => (handle, 0, 0, 0),
        MessageView::Incoming { id, node, code, flags, objects, .. } => (
            id,
            code,
            with_count(flags, objects.len()),
            node,
        ),
        MessageView::IncomingReply { id, node, status, objects, .. } => (
            status as u32,
            id,
            objects.len() as u32,
            node,
        ),
        MessageView::Export { node, .. } => (0, 0, 0, node),
        MessageView::Lookup { id, .. } => (id, 0, 0, 0),
        MessageView::Found { id, handle, node, owner } => (handle, owner, id, node),
        MessageView::LinkToDeath { handle } => (handle, 0, 0, 0),
        MessageView::UnlinkToDeath { handle } => (handle, 0, 0, 0),
        MessageView::Bye => (0, 0, 0, 0),
    }
}

/// Object offsets, four big-endian bytes each.
pub open spec fn offsets_bytes(s: Seq<u32>) -> Seq<u8> {
    Seq::new(4 * s.len(), |j: int| be32(s[j / 4])[j % 4])
}

/// One argument ref: its offset, then its node.
pub open spec fn ref_bytes(r: ArgumentRef) -> Seq<u8> {
    be32(r.offset) + be64(r.node)
}

/// Argument refs, twelve bytes each.
pub open spec fn refs_bytes(s: Seq<ArgumentRef>) -> Seq<u8> {
    Seq::new(12 * s.len(), |j: int| ref_bytes(s[j / 12])[j % 12])
}

/// The body of a message: its data, then its objects; a name as UTF-8.
pub open spec fn body_of(m: MessageView) -> Seq<u8> {
    match m {
        MessageView::Transaction { data, objects, .. } => data + refs_bytes(objects),
        MessageView::Reply { data, objects, .. } => data + offsets_bytes(objects),
        MessageView::Incoming { data, objects, .. } => data + offsets_bytes(objects),
        MessageView::IncomingReply { data, objects, .. } => data + offsets_bytes(objects),
        MessageView::Export { name, .. } => vstd::utf8::encode_utf8(name),
        MessageView::Lookup { name, .. } => vstd::utf8::encode_utf8(name),
        _ => Seq::empty(),
    }
}

/// The frame of a message sent with `fd_count` descriptors.
pub open spec fn frame_of(m: MessageView, fd_count: nat) -> Seq<u8> {
    let (a, b, c, node) = header_words(m);
    let body = body_of(m);
    seq![kind_of(m), VERSION, 0u8, 0u8] + be32(a) + be32(b) + be32(c) + be64(node) + be32(
        body.len() as u32,
    ) + be32(fd_count as u32) + body
}

/// Append object offsets.
fn push_offsets(out: &mut Vec<u8>, offsets: &Vec<u32>)
    ensures
        final(out)@ == old(out)@ + offsets_bytes(offsets@),
{
    let mut i: usize = 0;
    while i < offsets.len()
        invariant
            i <= offsets@.len(),
            out@ == old(out)@ + offsets_bytes(offsets@.take(i as int)),
        decreases offsets@.len() - i,
    {
        let ghost before = out@;
        push_be32(out, offsets[i]);
        proof {
            let t = offsets@.take(i + 1);
            assert(offsets_bytes(t) =~= offsets_bytes(offsets@.take(i as int)) + be32(offsets@[i as int]));
        }
        i = i + 1;
    }
    assert(offsets@.take(offsets@.len() as int) =~= offsets@);
}

/// Append argument refs.
fn push_refs(out: &mut Vec<u8>, refs: &Vec<ArgumentRef>)
    ensures
        final(out)@ == old(out)@ + refs_bytes(refs@),
{
    let mut i: usize = 0;
    while i < refs.len()
        invariant
            i <= refs@.len(),
            out@ == old(out)@ + refs_bytes(refs@.take(i as int)),
        decreases refs@.len() - i,
    {
        let r = refs[i];
        push_be32(out, r.offset);
        push_be64(out, r.node);
        proof {
            let t = refs@.take(i + 1);
            assert(refs_bytes(t) =~= refs_bytes(refs@.take(i as int)) + ref_bytes(r));
        }
        i = i + 1;
    }
    assert(refs@.take(refs@.len() as int) =~= refs@);
}

impl Message {
    /// The kind byte this message is framed with.
    pub fn kind(&self) -> (k: u8)
        ensures
            k == kind_of(self@),
    {
        match self {
            Message::Transaction { .. } => KIND_TRANSACTION,
            Message::Reply { .. } => KIND_REPLY,
            Message::Acquire { .. } => KIND_ACQUIRE,
            Message::Release { .. } => KIND_RELEASE,
            Message::IncRefs { .. } => KIND_INCREFS,
            Message::DecRefs { .. } => KIND_DECREFS,
            Message::Dead { .. } => KIND_DEAD,
            Message::Incoming { .. } => KIND_INCOMING,
            Message::IncomingReply { .. } => KIND_INCOMING_REPLY,
            Message::Export { .. } => KIND_EXPORT,
            Message::Lookup { .. } => KIND_LOOKUP,
            Message::Found { .. } => KIND_FOUND,
            Message::LinkToDeath { .. } => KIND_LINK,
            Message::UnlinkToDeath { .. } => KIND_UNLINK,
            Message::Bye => KIND_BYE,
        }
    }

    /// `(a, b, c, node)`, the words the header carries.
    pub fn fields(&self) -> (r: (u32, u32, u32, u64))
        ensures
            r == header_words(self@),
    {
        match self {
            Message::Transaction { id, handle, code, flags, objects, .. } => (
                *handle,
                *code,
                *flags | ((objects.len() as u32) << OBJECT_SHIFT),
                *id as u64,
            ),
            Message::Reply { id, status, objects, .. } => (*status as u32, *id, objects.len() as u32, 0),
            Message::Acquire { handle } => (*handle, 0, 0, 0),
            Message::Release { handle } => (*handle, 0, 0, 0),
            Message::IncRefs { handle } => (*handle, 0, 0, 0),
            Message::DecRefs { handle } => (*handle, 0, 0, 0),
            Message::Dead { handle } => (*handle, 0, 0, 0),
            Message::LinkToDeath { handle } => (*handle, 0, 0, 0),
            Message::UnlinkToDeath { handle } => (*handle, 0, 0, 0),
            Message::Incoming { id, node, code, flags, objects, .. } => (
                *id,
                *code,
                *flags | ((objects.len() as u32) << OBJECT_SHIFT),
                *node,
            ),
            Message::IncomingReply { id, node, status, objects, .. } => (
                *status as u32,
                *id,
                objects.len() as u32,
                *node,
            ),
            Message::Export { node, .. } => (0, 0, 0, *node),
            Message::Lookup { id, .. } => (*id, 0, 0, 0),
            Message::Found { id, handle, node, owner } => (*handle, *owner, *id, *node),
            Message::Bye => (0, 0, 0, 0),
        }
    }

    /// The argument refs of a transaction; nothing for the other kinds.
    pub fn object_refs(&self) -> (r: &[ArgumentRef])
        ensures
            r@ == match self@ {
                MessageView::Transaction { objects, .. } => objects,
                _ => Seq::empty(),
            },
    {
        match self {
            Message::Transaction { objects, .. } => objects.as_slice(),
            _ => &[],
        }
    }

    /// The object offsets of the messages whose refs are offsets alone.
    pub fn object_offsets(&self) -> (r: &[u32])
        ensures
            r@ == match self@ {
                MessageView::Reply { objects, .. } => objects,
                MessageView::Incoming { objects, .. } => objects,
                MessageView::IncomingReply { objects, .. } => objects,
                _ => Seq::empty(),
            },
    {
        match self {
            Message::Reply { objects, .. } => objects.as_slice(),
            Message::Incoming { objects, .. } => objects.as_slice(),
            Message::IncomingReply { objects, .. } => objects.as_slice(),
            _ => &[],
        }
    }

    /// The bytes for this message, given how many descriptors accompany it.
    ///
    /// The object offsets are appended to the body rather than interleaved
    /// with the data, so the body starts with the data exactly as it would
    /// without them.
    pub fn encode(&self, fd_count: usize) -> (out: Vec<u8>)
        requires
            HEADER + body_of(self@).len() <= isize::MAX,
        ensures
            out@ == frame_of(self@, fd_count as nat),
    {
        let (a, b, c, node) = self.fields();
        let mut body: Vec<u8> = Vec::new();
        match self {
            Message::Transaction { data, objects, .. } => {
                push_bytes(&mut body, data.as_slice());
                push_refs(&mut body, objects);
            },
            Message::Reply { data, objects, .. } => {
                push_bytes(&mut body, data.as_slice());
                push_offsets(&mut body, objects);
            },
            Message::Incoming { data, objects, .. } => {
                push_bytes(&mut body, data.as_slice());
                push_offsets(&mut body, objects);
            },
            Message::IncomingReply { data, objects, .. } => {
                push_bytes(&mut body, data.as_slice());
                push_offsets(&mut body, objects);
            },
            Message::Export { name, .. } => {
                push_bytes(&mut body, name.as_str().as_bytes());
            },
            Message::Lookup { name, .. } => {
                push_bytes(&mut body, name.as_str().as_bytes());
            },
            _ => {},
        }
        assert(body@ == body_of(self@));
        let mut out: Vec<u8> = Vec::new();
        out.push(self.kind());
        out.push(VERSION);
        out.push(0);
        out.push(0);
        push_be32(&mut out, a);
        push_be32(&mut out, b);
        push_be32(&mut out, c);
        push_be64(&mut out, node);
        push_be32(&mut out, body.len() as u32);
        push_be32(&mut out, fd_count as u32);
        push_bytes(&mut out, body.as_slice());
        assert(out@ =~= frame_of(self@, fd_count as nat));
        out
    }
}

/// Whether the four byte prefix a connection sent is the Binder magic.
pub fn is_binder_prefix(prefix: &[u8; 4]) -> (r: bool)
    ensures
        r == (prefix@ == MAGIC@),
{
    let ok = prefix[0] == MAGIC[0] && prefix[1] == MAGIC[1] && prefix[2] == MAGIC[2] && prefix[3]
        == MAGIC[3];
    proof {
        if ok {
            assert(prefix@ =~= MAGIC@);
        }
    }
    ok
}

/// Why a frame could not be read.
#[derive(Debug, Clone, Copy, PartialEq, Eq, Structural)]
pub enum WireError {
    /// Fewer bytes than a header.
    Short { len: usize },
    /// A version this side does not speak.
    Version { version: u8 },
    /// The header's body length is not what follows it.
    Length { said: usize, has: usize },
    /// More descriptors than one transaction may carry.
    TooManyFds { count: usize },
    /// A name that is not UTF-8.
    NotUtf8,
    /// A kind byte that names no message.
    UnknownKind { kind: u8 },
    /// A header announcing a body past [`MAX_FRAME`].
    TooLarge { len: usize },
}

/// What an error says.
pub open spec fn wire_error_text(e: WireError) -> Seq<char> {
    match e {
        WireError::Short { len } => "short frame: "@ + decimal_chars(len as nat) + " bytes"@,
        WireError::Version { version } => "unsupported data plane version "@ + decimal_chars(
            version as nat,
        ),
        WireError::Length { said, has } => "frame says "@ + decimal_chars(said as nat)
            + " data bytes, has "@ + decimal_chars(has as nat),
        WireError::TooManyFds { count } => "too many descriptors: "@ + decimal_chars(count as nat),
        WireError::NotUtf8 => "a name must be UTF-8"@,
        WireError::UnknownKind { kind } => "unknown message kind "@ + decimal_chars(kind as nat),
        WireError::TooLarge { len } => "frame too large: "@ + decimal_chars(len as nat)
            + " bytes"@,
    }
}

impl WireError {
    /// The error as a sentence.
    pub fn message(&self) -> (s: String)
        ensures
            s@ == wire_error_text(*self),
    {
        let mut v: Vec<char> = Vec::new();
        match *self {
            WireError::Short { len } => {
                push_str(&mut v, "short frame: ");
                crate::text::push_decimal(&mut v, len as u64);
                push_str(&mut v, " bytes");
            },
            WireError::Version { version } => {
                push_str(&mut v, "unsupported data plane version ");
                crate::text::push_decimal(&mut v, version as u64);
            },
            WireError::Length { said, has } => {
                push_str(&mut v, "frame says ");
                crate::text::push_decimal(&mut v, said as u64);
                push_str(&mut v, " data bytes, has ");
                crate::text::push_decimal(&mut v, has as u64);
            },
            WireError::TooManyFds { count } => {
                push_str(&mut v, "too many descriptors: ");
                crate::text::push_decimal(&mut v, count as u64);
            },
            WireError::NotUtf8 => {
                push_str(&mut v, "a name must be UTF-8");
            },
            WireError::UnknownKind { kind } => {
                push_str(&mut v, "unknown message kind ");
                crate::text::push_decimal(&mut v, kind as u64);
            },
            WireError::TooLarge { len } => {
                push_str(&mut v, "frame too large: ");
                crate::text::push_decimal(&mut v, len as u64);
                push_str(&mut v, " bytes");
            },
        }
        assert(v@ =~= wire_error_text(*self));
        string_of(v.as_slice())
    }
}

/// The data of a body and the argument refs at its end, given how many
/// twelve byte refs it carries. A count the body cannot hold leaves it whole.
pub open spec fn split_refs_of(body: Seq<u8>, count: u32) -> (Seq<u8>, Seq<ArgumentRef>) {
    if count == 0 || body.len() < count * 12 {
        (body, Seq::empty())
    } else {
        let at = body.len() - count * 12;
        (
            body.take(at),
            Seq::new(
                count as nat,
                |i: int| ArgumentRef { offset: get_be32(body, at + 12 * i), node: get_be64(body, at + 12 * i + 4) },
            ),
        )
    }
}

/// The data of a body and the object offsets at its end, given how many
/// four byte words it carries.
pub open spec fn split_objects_of(body: Seq<u8>, count: u32) -> (Seq<u8>, Seq<u32>) {
    if count == 0 || body.len() < count * 4 {
        (body, Seq::empty())
    } else {
        let at = body.len() - count * 4;
        (body.take(at), Seq::new(count as nat, |i: int| get_be32(body, at + 4 * i)))
    }
}

/// The message a header's fields and a body make, by kind.
pub open spec fn message_of(kind: u8, a: u32, b: u32, c: u32, node: u64, body: Seq<u8>) -> Result<MessageView, WireError> {
    if kind == KIND_TRANSACTION {
        let (data, objects) = split_refs_of(body, c >> OBJECT_SHIFT);
        Ok(MessageView::Transaction { id: node as u32, handle: a, code: b, flags: c & 0xffff, data, objects })
    } else if kind == KIND_REPLY {
        let (data, objects) = split_objects_of(body, c);
        Ok(MessageView::Reply { id: b, status: a as i32, data, objects })
    } else if kind == KIND_ACQUIRE {
        Ok(MessageView::Acquire { handle: a })
    } else if kind == KIND_RELEASE {
        Ok(MessageView::Release { handle: a })
    } else if kind == KIND_INCREFS {
        Ok(MessageView::IncRefs { handle: a })
    } else if kind == KIND_DECREFS {
        Ok(MessageView::DecRefs { handle: a })
    } else if kind == KIND_DEAD {
        Ok(MessageView::Dead { handle: a })
    } else if kind == KIND_INCOMING {
        let (data, objects) = split_objects_of(body, c >> OBJECT_SHIFT);
        Ok(MessageView::Incoming { id: a, node, code: b, flags: c & 0xffff, data, objects })
    } else if kind == KIND_INCOMING_REPLY {
        let (data, objects) = split_objects_of(body, c);
        Ok(MessageView::IncomingReply { id: b, node, status: a as i32, data, objects })
    } else if kind == KIND_EXPORT {
        if vstd::utf8::valid_utf8(body) {
            Ok(MessageView::Export { name: vstd::utf8::decode_utf8(body), node })
        } else {
            Err(WireError::NotUtf8)
        }
    } else if kind == KIND_LOOKUP {
        if vstd::utf8::valid_utf8(body) {
            Ok(MessageView::Lookup { id: a, name: vstd::utf8::decode_utf8(body) })
        } else {
            Err(WireError::NotUtf8)
        }
    } else if kind == KIND_FOUND {
        Ok(MessageView::Found { id: c, handle: a, node, owner: b })
    } else if kind == KIND_LINK {
        Ok(MessageView::LinkToDeath { handle: a })
    } else if kind == KIND_UNLINK {
        Ok(MessageView::UnlinkToDeath { handle: a })
    } else if kind == KIND_BYE {
        Ok(MessageView::Bye)
    } else {
        Err(WireError::UnknownKind { kind })
    }
}

/// What a whole frame decodes to: the message and how many descriptors
/// belong to it, or the first thing wrong with it.
pub open spec fn decode_of(b: Seq<u8>) -> Result<(MessageView, nat), WireError> {
    if b.len() < HEADER {
        Err(WireError::Short { len: b.len() as usize })
    } else if b[1] != VERSION {
        Err(WireError::Version { version: b[1] })
    } else {
        let data_len = get_be32(b, 24);
        let fds = get_be32(b, 28);
        if b.len() != HEADER + data_len {
            Err(WireError::Length { said: data_len as usize, has: (b.len() - HEADER) as usize })
        } else if fds > MAX_FDS {
            Err(WireError::TooManyFds { count: fds as usize })
        } else {
            match message_of(
                b[0],
                get_be32(b, 4),
                get_be32(b, 8),
                get_be32(b, 12),
                get_be64(b, 16),
                b.subrange(HEADER as int, b.len() as int),
            ) {
                Ok(m) => Ok((m, fds as nat)),
                Err(e) => Err(e),
            }
        }
    }
}

/// How many descriptors a frame claims, from its header alone.
pub open spec fn fd_count_of(b: Seq<u8>) -> Option<nat> {
    if b.len() < HEADER {
        None
    } else {
        Some(get_be32(b, 28) as nat)
    }
}

/// `String::from_utf8`: the text of the bytes when they are UTF-8.
///
/// std documents the result as an error exactly when the bytes are not
/// valid UTF-8, and otherwise the string those bytes encode.
#[verifier::external_body]
fn utf8_string(bytes: Vec<u8>) -> (r: Option<String>)
    ensures
        match r {
            Some(s) => vstd::utf8::valid_utf8(bytes@) && s@ == vstd::utf8::decode_utf8(bytes@),
            None => !vstd::utf8::valid_utf8(bytes@),
        },
{
    String::from_utf8(bytes).ok()
}

/// The data of a body and the argument refs at its end.
fn split_refs(body: Vec<u8>, count: u32) -> (r: (Vec<u8>, Vec<ArgumentRef>))
    ensures
        (r.0@, r.1@) == split_refs_of(body@, count),
{
    let n = count as usize;
    if n == 0 || body.len() / 12 < n {
        return (body, Vec::new());
    }
    let at = body.len() - n * 12;
    let mut objects: Vec<ArgumentRef> = Vec::new();
    let mut i: usize = 0;
    while i < n
        invariant
            i <= n,
            n == count,
            at + 12 * n == body@.len(),
            body@.len() == body.len(),
            objects@ == Seq::new(
                i as nat,
                |k: int| ArgumentRef { offset: get_be32(body@, at + 12 * k), node: get_be64(body@, at + 12 * k + 4) },
            ),
        decreases n - i,
    {
        let offset = read_be32(body.as_slice(), at + 12 * i);
        let node = read_be64(body.as_slice(), at + 12 * i + 4);
        objects.push(ArgumentRef { offset, node });
        i = i + 1;
        assert(objects@ =~= Seq::new(
            i as nat,
            |k: int| ArgumentRef { offset: get_be32(body@, at + 12 * k), node: get_be64(body@, at + 12 * k + 4) },
        ));
    }
    let mut data = body;
    data.truncate(at);
    (data, objects)
}

/// The data of a body and the object offsets at its end.
fn split_objects(body: Vec<u8>, count: u32) -> (r: (Vec<u8>, Vec<u32>))
    ensures
        (r.0@, r.1@) == split_objects_of(body@, count),
{
    let n = count as usize;
    if n == 0 || body.len() / 4 < n {
        return (body, Vec::new());
    }
    let at = body.len() - n * 4;
    let mut objects: Vec<u32> = Vec::new();
    let mut i: usize = 0;
    while i < n
        invariant
            i <= n,
            n == count,
            at + 4 * n == body@.len(),
            body@.len() == body.len(),
            objects@ == Seq::new(i as nat, |k: int| get_be32(body@, at + 4 * k)),
        decreases n - i,
    {
        let word = read_be32(body.as_slice(), at + 4 * i);
        objects.push(word);
        i = i + 1;
        assert(objects@ =~= Seq::new(i as nat, |k: int| get_be32(body@, at + 4 * k)));
    }
    let mut data = body;
    data.truncate(at);
    (data, objects)
}

impl Message {
    /// How many descriptors the frame claims, from its header alone.
    pub fn fd_count(bytes: &[u8]) -> (r: Option<usize>)
        ensures
            match fd_count_of(bytes@) {
                Some(n) => r == Some(n as usize),
                None => r is None,
            },
    {
        if bytes.len() < HEADER {
            return None;
        }
        Some(read_be32(bytes, 28) as usize)
    }

    /// Decode a whole frame: the message and how many descriptors belong to
    /// it, so the caller can take exactly those.
    pub fn decode(bytes: &[u8]) -> (r: Result<(Message, usize), WireError>)
        ensures
            match (r, decode_of(bytes@)) {
                (Ok((m, n)), Ok((mv, nv))) => m@ == mv && n == nv,
                (Err(e), Err(ev)) => e == ev,
                _ => false,
            },
    {
        if bytes.len() < HEADER {
            return Err(WireError::Short { len: bytes.len() });
        }
        if bytes[1] != VERSION {
            return Err(WireError::Version { version: bytes[1] });
        }
        let a = read_be32(bytes, 4);
        let b = read_be32(bytes, 8);
        let c = read_be32(bytes, 12);
        let node = read_be64(bytes, 16);
        let data_len = read_be32(bytes, 24) as usize;
        let fd_count = read_be32(bytes, 28) as usize;
        if bytes.len() - HEADER != data_len {
            return Err(WireError::Length { said: data_len, has: bytes.len() - HEADER });
        }
        if fd_count > MAX_FDS {
            return Err(WireError::TooManyFds { count: fd_count });
        }
        let mut data: Vec<u8> = Vec::new();
        push_bytes(&mut data, &bytes[HEADER..bytes.len()]);
        let ghost body = bytes@.subrange(HEADER as int, bytes@.len() as int);
        assert(data@ =~= body);
        let kind = bytes[0];
        let message = if kind == KIND_TRANSACTION {
            let (data, objects) = split_refs(data, c >> OBJECT_SHIFT);
            Message::Transaction { id: node as u32, handle: a, code: b, flags: c & 0xffff, data, objects }
        } else if kind == KIND_REPLY {
            let (data, objects) = split_objects(data, c);
            Message::Reply { id: b, status: a as i32, data, objects }
        } else if kind == KIND_ACQUIRE {
            Message::Acquire { handle: a }
        } else if kind == KIND_RELEASE {
            Message::Release { handle: a }
        } else if kind == KIND_INCREFS {
            Message::IncRefs { handle: a }
        } else if kind == KIND_DECREFS {
            Message::DecRefs { handle: a }
        } else if kind == KIND_DEAD {
            Message::Dead { handle: a }
        } else if kind == KIND_INCOMING {
            let (data, objects) = split_objects(data, c >> OBJECT_SHIFT);
            Message::Incoming { id: a, node, code: b, flags: c & 0xffff, data, objects }
        } else if kind == KIND_INCOMING_REPLY {
            let (data, objects) = split_objects(data, c);
            Message::IncomingReply { id: b, node, status: a as i32, data, objects }
        } else if kind == KIND_EXPORT {
            match utf8_string(data) {
                Some(name) => Message::Export { name, node },
                None => return Err(WireError::NotUtf8),
            }
        } else if kind == KIND_LOOKUP {
            match utf8_string(data) {
                Some(name) => Message::Lookup { id: a, name },
                None => return Err(WireError::NotUtf8),
            }
        } else if kind == KIND_FOUND {
            Message::Found { id: c, handle: a, node, owner: b }
        } else if kind == KIND_LINK {
            Message::LinkToDeath { handle: a }
        } else if kind == KIND_UNLINK {
            Message::UnlinkToDeath { handle: a }
        } else if kind == KIND_BYE {
            Message::Bye
        } else {
            return Err(WireError::UnknownKind { kind });
        };
        Ok((message, fd_count))
    }
}

/// How long the frame at the front of `buf` is, once all of it has arrived:
/// `None` while its header or its body is still short, an error for a
/// header that announces more than [`MAX_FRAME`].
pub open spec fn frame_length_of(buf: Seq<u8>) -> Result<Option<nat>, WireError> {
    if buf.len() < HEADER {
        Ok(None)
    } else {
        let data_len = get_be32(buf, 24);
        if data_len > MAX_FRAME {
            Err(WireError::TooLarge { len: data_len as usize })
        } else if buf.len() < HEADER + data_len {
            Ok(None)
        } else {
            Ok(Some((HEADER + data_len) as nat))
        }
    }
}

/// How long the frame at the front of a receive buffer is, once all of it
/// has arrived. A hostile length is refused before anything is allocated
/// for it.
pub fn frame_length(buf: &[u8]) -> (r: Result<Option<usize>, WireError>)
    ensures
        match (r, frame_length_of(buf@)) {
            (Ok(Some(n)), Ok(Some(nv))) => n == nv,
            (Ok(None), Ok(None)) => true,
            (Err(e), Err(ev)) => e == ev,
            _ => false,
        },
{
    if buf.len() < HEADER {
        return Ok(None);
    }
    let data_len = read_be32(buf, 24) as usize;
    if data_len > MAX_FRAME {
        return Err(WireError::TooLarge { len: data_len });
    }
    if buf.len() - HEADER < data_len {
        return Ok(None);
    }
    Ok(Some(HEADER + data_len))
}

/// Four bytes that spell `x` read back as `x`.
proof fn lemma_be32_in(b: Seq<u8>, k: int, x: u32)
    requires
        0 <= k,
        k + 4 <= b.len(),
        forall|r: int| 0 <= r < 4 ==> b[k + r] == #[trigger] be32(x)[r],
    ensures
        get_be32(b, k) == x,
{
    let pre = b.take(k);
    let post = b.skip(k + 4);
    assert(b =~= pre + be32(x) + post);
    lemma_be32_at(pre, x, post);
}

/// Eight bytes that spell `x` read back as `x`.
proof fn lemma_be64_in(b: Seq<u8>, k: int, x: u64)
    requires
        0 <= k,
        k + 8 <= b.len(),
        forall|r: int| 0 <= r < 8 ==> b[k + r] == #[trigger] be64(x)[r],
    ensures
        get_be64(b, k) == x,
{
    let pre = b.take(k);
    let post = b.skip(k + 8);
    assert(b =~= pre + be64(x) + post);
    lemma_be64_at(pre, x, post);
}

/// Offsets appended to data are split off again.
proof fn lemma_split_objects(data: Seq<u8>, objects: Seq<u32>)
    requires
        data.len() + 4 * objects.len() <= u32::MAX,
    ensures
        split_objects_of(data + offsets_bytes(objects), objects.len() as u32) == (data, objects),
{
    let body = data + offsets_bytes(objects);
    let n = objects.len();
    if n == 0 {
        assert(body =~= data);
    } else {
        let at = data.len() as int;
        assert(body.take(at) =~= data);
        assert forall|i: int| 0 <= i < n implies get_be32(body, at + 4 * i) == objects[i] by {
            assert forall|r: int| 0 <= r < 4 implies body[at + 4 * i + r] == #[trigger] be32(objects[i])[r] by {
                assert((4 * i + r) / 4 == i);
                assert((4 * i + r) % 4 == r);
            }
            lemma_be32_in(body, at + 4 * i, objects[i]);
        }
        assert(Seq::new(n as nat, |i: int| get_be32(body, at + 4 * i)) =~= objects);
    }
}

/// Argument refs appended to data are split off again.
proof fn lemma_split_refs(data: Seq<u8>, objects: Seq<ArgumentRef>)
    requires
        data.len() + 12 * objects.len() <= u32::MAX,
    ensures
        split_refs_of(data + refs_bytes(objects), objects.len() as u32) == (data, objects),
{
    let body = data + refs_bytes(objects);
    let n = objects.len();
    if n == 0 {
        assert(body =~= data);
    } else {
        let at = data.len() as int;
        assert(body.take(at) =~= data);
        assert forall|i: int| 0 <= i < n implies get_be32(body, at + 12 * i) == objects[i].offset
            && get_be64(body, at + 12 * i + 4) == objects[i].node by {
            assert forall|r: int| 0 <= r < 12 implies body[at + 12 * i + r] == #[trigger] ref_bytes(objects[i])[r] by {
                assert((12 * i + r) / 12 == i);
                assert((12 * i + r) % 12 == r);
            }
            assert forall|r: int| 0 <= r < 4 implies body[at + 12 * i + r] == #[trigger] be32(objects[i].offset)[r] by {
                assert(body[at + 12 * i + r] == ref_bytes(objects[i])[r]);
            }
            assert forall|r: int| 0 <= r < 8 implies body[at + 12 * i + 4 + r] == #[trigger] be64(objects[i].node)[r] by {
                assert(body[at + 12 * i + (4 + r)] == ref_bytes(objects[i])[4 + r]);
            }
            lemma_be32_in(body, at + 12 * i, objects[i].offset);
            lemma_be64_in(body, at + 12 * i + 4, objects[i].node);
        }
        let parsed = Seq::new(
            n as nat,
            |i: int| ArgumentRef { offset: get_be32(body, at + 12 * i), node: get_be64(body, at + 12 * i + 4) },
        );
        assert(parsed =~= objects);
    }
}

/// Flags below the object count's half, with a count below it too, come apart
/// again.
proof fn lemma_count_in_flags(flags: u32, count: u32)
    requires
        flags < 0x10000,
        count < 0x10000,
    ensures
        (flags | (count << OBJECT_SHIFT)) >> OBJECT_SHIFT == count,
        (flags | (count << OBJECT_SHIFT)) & 0xffff == flags,
{
    assert((flags | (count << 16u32)) >> 16u32 == count) by (bit_vector)
        requires
            flags < 0x10000,
            count < 0x10000,
    ;
    assert((flags | (count << 16u32)) & 0xffff == flags) by (bit_vector)
        requires
            flags < 0x10000,
    ;
}

/// The messages a frame can carry whole: no more descriptors than allowed, a
/// body whose length the header can state, and, where a count shares the
/// flags word, flags and a count that each fit their half of it.
pub open spec fn fits_frame(m: MessageView, fd_count: nat) -> bool {
    &&& fd_count <= MAX_FDS
    &&& body_of(m).len() <= u32::MAX
    &&& match m {
        MessageView::Transaction { flags, objects, .. } => flags < 0x10000 && objects.len() < 0x10000,
        MessageView::Incoming { flags, objects, .. } => flags < 0x10000 && objects.len() < 0x10000,
        _ => true,
    }
}

/// Decoding a frame gives back the message it was encoded from, and the
/// number of descriptors it was sent with.
pub proof fn lemma_decode_encode(m: MessageView, fd_count: nat)
    requires
        fits_frame(m, fd_count),
    ensures
        decode_of(frame_of(m, fd_count)) == Ok::<(MessageView, nat), WireError>((m, fd_count)),
{
    broadcast use vstd::utf8::encode_utf8_valid_utf8, vstd::utf8::encode_utf8_decode_utf8;

    let f = frame_of(m, fd_count);
    let (a, b, c, node) = header_words(m);
    let body = body_of(m);
    let len32 = body.len() as u32;
    let fd32 = fd_count as u32;
    assert(f.len() == HEADER + body.len());
    assert forall|r: int| 0 <= r < 4 implies f[4 + r] == #[trigger] be32(a)[r] by {}
    assert forall|r: int| 0 <= r < 4 implies f[8 + r] == #[trigger] be32(b)[r] by {}
    assert forall|r: int| 0 <= r < 4 implies f[12 + r] == #[trigger] be32(c)[r] by {}
    assert forall|r: int| 0 <= r < 8 implies f[16 + r] == #[trigger] be64(node)[r] by {}
    assert forall|r: int| 0 <= r < 4 implies f[24 + r] == #[trigger] be32(len32)[r] by {}
    assert forall|r: int| 0 <= r < 4 implies f[28 + r] == #[trigger] be32(fd32)[r] by {}
    lemma_be32_in(f, 4, a);
    lemma_be32_in(f, 8, b);
    lemma_be32_in(f, 12, c);
    lemma_be64_in(f, 16, node);
    lemma_be32_in(f, 24, len32);
    lemma_be32_in(f, 28, fd32);
    assert(f.subrange(HEADER as int, f.len() as int) =~= body);
    assert(f[0] == kind_of(m));
    assert(f[1] == VERSION);
    match m {
        MessageView::Transaction { id, handle, code, flags, data, objects } => {
            lemma_count_in_flags(flags, objects.len() as u32);
            lemma_split_refs(data, objects);
            assert((id as u64) as u32 == id) by (bit_vector);
        },
        MessageView::Reply { id, status, data, objects } => {
            lemma_split_objects(data, objects);
            assert((status as u32) as i32 == status) by (bit_vector);
        },
        MessageView::Incoming { id, node, code, flags, data, objects } => {
            lemma_count_in_flags(flags, objects.len() as u32);
            lemma_split_objects(data, objects);
        },
        MessageView::IncomingReply { id, node, status, data, objects } => {
            lemma_split_objects(data, objects);
            assert((status as u32) as i32 == status) by (bit_vector);
        },
        _ => {},
    }
}

/// The descriptor count read from the front of an encoded frame is the one
/// it was encoded with, before the rest of the frame has arrived.
pub proof fn lemma_fd_count_of_frame(m: MessageView, fd_count: nat)
    requires
        fd_count <= u32::MAX,
    ensures
        fd_count_of(frame_of(m, fd_count)) == Some(fd_count),
{
    let f = frame_of(m, fd_count);
    let fd32 = fd_count as u32;
    assert(f.len() >= HEADER);
    assert forall|r: int| 0 <= r < 4 implies f[28 + r] == #[trigger] be32(fd32)[r] by {}
    lemma_be32_in(f, 28, fd32);
}

} // verus!
