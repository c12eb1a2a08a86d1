//! The broker's side of the Binder data plane, as decisions: what a session
//! does with each message its client sends, and how an owner's answer is
//! rewritten for the process that asked.
//!
//! The sockets, the threads and the waiting are the host's. A call to a
//! service in another process is forwarded to it as an `Incoming` message and
//! its answer relayed back; a failure to answer one transaction is a failed
//! reply, and the session lives on.

use vstd::prelude::*;

use crate::binder::broker::{
    has_room, hosted_reply_is, room_for, took_handle, BinderBroker, BrokerError, DeathNotice, Dispatch, broker_error_text,
};
use crate::binder::service::BinderObject;
use crate::binder::table::Target;
use crate::binder::wire::{ArgumentRef, Message, MessageView, NO_HANDLE, TF_ONE_WAY};
use crate::binder::ClientId;
use crate::octets::{get_le32, get_le64, le64, push_bytes, read_le32};
use crate::text::{decimal_chars, join, push_decimal, push_str, signed_decimal, signed_decimal_chars, string_of};

verus! {

/// `EX_TRANSACTION_FAILED`: what a caller gets for a call that could not be
/// routed or was not answered.
pub const EX_TRANSACTION_FAILED: i32 = -129;

/// Who a message goes to: the connection the request came from, or every
/// connection of a client.
#[derive(Debug, Clone, Copy, PartialEq, Eq, Structural)]
pub enum Recipient {
    Asker,
    Client(ClientId),
}

/// A message to send.
#[derive(Debug, Clone, PartialEq, Eq)]
pub struct Outgoing {
    pub to: Recipient,
    pub message: Message,
}

/// Why a session ends.
#[derive(Debug, Clone, PartialEq, Eq)]
pub enum SessionError {
    /// A reference or a link the broker refused.
    Broker(BrokerError),
    /// A message only the broker sends.
    NotAllowed(Message),
}

/// What a session does with a message.
#[derive(Debug)]
pub enum Step {
    /// Send these, and go on.
    Send(Vec<Outgoing>),
    /// Ask `owner` to run the call, and relay its answer to the asker unless
    /// the call is one-way.
    Forward { owner: ClientId, node: u64, id: u32, oneway: bool, message: Message },
    /// An owner answered a forwarded call: hand the answer to whoever waits for
    /// request `id` on `node`.
    Answered { node: u64, id: u32, status: i32, data: Vec<u8>, objects: Vec<u32> },
    /// The client said goodbye.
    End,
    /// The session cannot go on.
    Refused(SessionError),
}

/// Numbers as a list is written for debugging: `[1, 2, 3]`.
pub open spec fn list_text(v: Seq<nat>) -> Seq<char> {
    "["@ + join(v.map_values(|x: nat| decimal_chars(x)), ", "@) + "]"@
}

/// Bytes as numbers.
pub open spec fn byte_values(v: Seq<u8>) -> Seq<nat> {
    v.map_values(|b: u8| b as nat)
}

/// Words as numbers.
pub open spec fn word_values(v: Seq<u32>) -> Seq<nat> {
    v.map_values(|w: u32| w as nat)
}

/// A message written out as its debugging form is, for the messages a
/// client may not send: the variant, then each field by name.
pub open spec fn message_text(m: MessageView) -> Seq<char> {
    match m {
        MessageView::Reply { id, status, data, objects } => "Reply { id: "@ + decimal_chars(id as nat) + ", status: "@
            + signed_decimal_chars(status as int) + ", data: "@ + list_text(byte_values(data)) + ", objects: "@
            + list_text(word_values(objects)) + " }"@,
        MessageView::Dead { handle } => "Dead { handle: "@ + decimal_chars(handle as nat) + " }"@,
        MessageView::Incoming { id, node, code, flags, data, objects } => "Incoming { id: "@ + decimal_chars(id as nat)
            + ", node: "@ + decimal_chars(node as nat) + ", code: "@ + decimal_chars(code as nat) + ", flags: "@
            + decimal_chars(flags as nat) + ", data: "@ + list_text(byte_values(data)) + ", objects: "@ + list_text(
            word_values(objects),
        ) + " }"@,
        MessageView::Found { id, handle, node, owner } => "Found { id: "@ + decimal_chars(id as nat) + ", handle: "@
            + decimal_chars(handle as nat) + ", node: "@ + decimal_chars(node as nat) + ", owner: "@ + decimal_chars(
            owner as nat,
        ) + " }"@,
        _ => Seq::empty(),
    }
}

/// Append numbers as a list.
fn push_list(out: &mut Vec<char>, v: &Vec<u64>)
    ensures
        final(out)@ == old(out)@ + list_text(v@.map_values(|x: u64| x as nat)),
{
    let ghost all = v@.map_values(|x: u64| x as nat).map_values(|x: nat| decimal_chars(x));
    push_str(out, "[");
    let ghost start = out@;
    let mut i: usize = 0;
    while i < v.len()
        invariant
            i <= v@.len(),
            all == v@.map_values(|x: u64| x as nat).map_values(|x: nat| decimal_chars(x)),
            out@ == start + join(all.take(i as int), ", "@),
        decreases v@.len() - i,
    {
        if i > 0 {
            push_str(out, ", ");
        }
        push_decimal(out, v[i]);
        proof {
            let t = all.take(i + 1);
            assert(t.drop_last() =~= all.take(i as int));
            assert(t.last() == decimal_chars(v@[i as int] as nat));
            if i == 0 {
                assert(join(all.take(0), ", "@) =~= Seq::<char>::empty());
                assert(join(t, ", "@) == t[0]);
            }
            assert(out@ =~= start + join(t, ", "@));
        }
        i = i + 1;
    }
    assert(all.take(v@.len() as int) =~= all);
    push_str(out, "]");
}

/// Bytes widened to `u64`.
fn widen_bytes(v: &Vec<u8>) -> (r: Vec<u64>)
    ensures
        r@.map_values(|x: u64| x as nat) == byte_values(v@),
{
    let mut r: Vec<u64> = Vec::new();
    let mut i: usize = 0;
    while i < v.len()
        invariant
            i <= v@.len(),
            r@.len() == i,
            forall|k: int| 0 <= k < i ==> #[trigger] r@[k] == v@[k] as u64,
        decreases v@.len() - i,
    {
        r.push(v[i] as u64);
        i = i + 1;
    }
    assert(r@.map_values(|x: u64| x as nat) =~= byte_values(v@));
    r
}

/// Words widened to `u64`.
fn widen_words(v: &Vec<u32>) -> (r: Vec<u64>)
    ensures
        r@.map_values(|x: u64| x as nat) == word_values(v@),
{
    let mut r: Vec<u64> = Vec::new();
    let mut i: usize = 0;
    while i < v.len()
        invariant
            i <= v@.len(),
            r@.len() == i,
            forall|k: int| 0 <= k < i ==> #[trigger] r@[k] == v@[k] as u64,
        decreases v@.len() - i,
    {
        r.push(v[i] as u64);
        i = i + 1;
    }
    assert(r@.map_values(|x: u64| x as nat) =~= word_values(v@));
    r
}

/// Append a message's debugging form.
fn push_message_text(out: &mut Vec<char>, m: &Message)
    ensures
        final(out)@ == old(out)@ + message_text(m@),
{
    match m {
        Message::Reply { id, status, data, objects } => {
            push_str(out, "Reply { id: ");
            push_decimal(out, *id as u64);
            push_str(out, ", status: ");
            let st = signed_decimal(*status);
            push_str(out, st.as_str());
            push_str(out, ", data: ");
            push_list(out, &widen_bytes(data));
            push_str(out, ", objects: ");
            push_list(out, &widen_words(objects));
            push_str(out, " }");
        },
        Message::Dead { handle } => {
            push_str(out, "Dead { handle: ");
            push_decimal(out, *handle as u64);
            push_str(out, " }");
        },
        Message::Incoming { id, node, code, flags, data, objects } => {
            push_str(out, "Incoming { id: ");
            push_decimal(out, *id as u64);
            push_str(out, ", node: ");
            push_decimal(out, *node);
            push_str(out, ", code: ");
            push_decimal(out, *code as u64);
            push_str(out, ", flags: ");
            push_decimal(out, *flags as u64);
            push_str(out, ", data: ");
            push_list(out, &widen_bytes(data));
            push_str(out, ", objects: ");
            push_list(out, &widen_words(objects));
            push_str(out, " }");
        },
        Message::Found { id, handle, node, owner } => {
            push_str(out, "Found { id: ");
            push_decimal(out, *id as u64);
            push_str(out, ", handle: ");
            push_decimal(out, *handle as u64);
            push_str(out, ", node: ");
            push_decimal(out, *node);
            push_str(out, ", owner: ");
            push_decimal(out, *owner as u64);
            push_str(out, " }");
        },
        _ => {},
    }
}

/// What a session's refusal says.
pub open spec fn session_error_text(e: SessionError) -> Seq<char> {
    match e {
        SessionError::Broker(b) => broker_error_text(b),
        SessionError::NotAllowed(m) => "a client may not send "@ + message_text(m@),
    }
}

impl SessionError {
    /// The refusal as text.
    pub fn message(&self) -> (s: String)
        ensures
            s@ == session_error_text(*self),
    {
        match self {
            SessionError::Broker(e) => e.message(),
            SessionError::NotAllowed(m) => {
                let mut v: Vec<char> = Vec::new();
                push_str(&mut v, "a client may not send ");
                push_message_text(&mut v, m);
                string_of(v.as_slice())
            },
        }
    }
}

/// Whether a call is one-way: nothing waits for its answer.
pub open spec fn one_way(flags: u32) -> bool {
    flags & TF_ONE_WAY != 0
}

/// What a call's failure answers: nothing for a one-way call, a failed reply
/// with the reason otherwise.
pub open spec fn failed_reply(id: u32, flags: u32, reason: Seq<char>, out: Seq<Outgoing>, client: ClientId) -> bool {
    if one_way(flags) {
        out.len() == 0
    } else {
        &&& out.len() == 1
        &&& out[0].to == Recipient::Client(client)
        &&& out[0].message@ == MessageView::Reply {
            id,
            status: EX_TRANSACTION_FAILED,
            data: vstd::utf8::encode_utf8(reason),
            objects: Seq::empty(),
        }
    }
}

/// The offsets of a call's objects.
pub open spec fn offsets(objects: Seq<ArgumentRef>) -> Seq<u32> {
    objects.map_values(|o: ArgumentRef| o.offset)
}

/// What a session does with a transaction, against the broker as it was.
pub open spec fn transaction_outcome<T: BinderObject>(
    b: BinderBroker<T>,
    client: ClientId,
    id: u32,
    handle: u32,
    code: u32,
    flags: u32,
    data: Seq<u8>,
    objects: Seq<ArgumentRef>,
    s: Step,
) -> bool {
    &&& (!b.clients().contains_key(client) ==> (s matches Step::Send(out) && failed_reply(
            id,
            flags,
            broker_error_text(BrokerError::NoClient(client)),
            out@,
            client,
        )))
    &&& (b.clients().contains_key(client) && !b.clients()[client].table@.contains_key(handle)
            ==> (s matches Step::Send(out) && failed_reply(
            id,
            flags,
            broker_error_text(BrokerError::NoHandleIn { handle, client }),
            out@,
            client,
        )))
    &&& (b.clients().contains_key(client) && b.clients()[client].table@.contains_key(handle)
            ==> match b.clients()[client].table@[handle].target {
            Target::ServiceManager => s matches Step::Send(out) && failed_reply(
                id,
                flags,
                broker_error_text(BrokerError::ServiceManager),
                out@,
                client,
            ),
            Target::Local(_) => s matches Step::Send(out) && if one_way(flags) {
                out@.len() == 0
            } else {
                &&& out@.len() == 1
                &&& out@[0].to == Recipient::Client(client)
                &&& out@[0].message@ == MessageView::Reply {
                    id,
                    status: -1i32,
                    data: vstd::utf8::encode_utf8("a local object is called directly"@),
                    objects: Seq::empty(),
                }
            },
            Target::Remote { node, owner } => if owner == crate::binder::SERVICE_MANAGER {
                s matches Step::Send(out) && if one_way(flags) {
                    out@.len() == 0
                } else {
                    &&& out@.len() == 1
                    &&& out@[0].to == Recipient::Client(client)
                    &&& out@[0].message@ is Reply
                    &&& out@[0].message@->Reply_id == id
                    &&& out@[0].message@->Reply_objects.len() == 0
                    &&& hosted_reply_is(
                        b.nodes(),
                        b.hosted(),
                        b.hosted_answers(code, data),
                        b.hosted_descriptors(),
                        node,
                        code,
                        out@[0].message@->Reply_status,
                        out@[0].message@->Reply_data,
                    )
                }
            } else {
                s matches Step::Forward { owner: o, node: n, id: i, oneway, message } && o == owner && n == node && i
                    == id && oneway == one_way(flags) && message@ == MessageView::Incoming {
                    id,
                    node,
                    code,
                    flags,
                    data: data,
                    objects: offsets(objects),
                }
            },
        })
}

/// A reply for request `id`.
fn reply(id: u32, status: i32, data: Vec<u8>) -> (m: Message)
    ensures
        m@ == (MessageView::Reply { id, status, data: data@, objects: Seq::empty() }),
{
    let m = Message::Reply { id, status, data, objects: Vec::new() };
    assert(m@ == (MessageView::Reply { id, status, data: data@, objects: Seq::empty() }));
    m
}

/// Text as UTF-8 bytes.
fn bytes_of(s: &str) -> (b: Vec<u8>)
    ensures
        b@ == vstd::utf8::encode_utf8(s@),
{
    let mut b: Vec<u8> = Vec::new();
    push_bytes(&mut b, s.as_bytes());
    b
}

/// The offsets of a call's objects.
fn offsets_of(objects: &Vec<ArgumentRef>) -> (r: Vec<u32>)
    ensures
        r@ == offsets(objects@),
{
    let mut r: Vec<u32> = Vec::new();
    let mut i: usize = 0;
    while i < objects.len()
        invariant
            i <= objects@.len(),
            r@ == offsets(objects@.take(i as int)),
        decreases objects@.len() - i,
    {
        r.push(objects[i].offset);
        i = i + 1;
        assert(offsets(objects@.take(i as int)) =~= offsets(objects@.take(i - 1)).push(objects@[i - 1].offset));
    }
    assert(objects@.take(i as int) =~= objects@);
    r
}

/// What a session does with a transaction from its client: the broker's
/// answer goes back to the caller, a call on the caller's own object is
/// answered that it is called directly, a call on another process's object is
/// forwarded to it, and a call the broker cannot route is a failed reply. A
/// one-way call is answered with nothing.
pub fn transaction_step<T: BinderObject>(
    broker: &mut BinderBroker<T>,
    client: ClientId,
    id: u32,
    handle: u32,
    code: u32,
    flags: u32,
    data: Vec<u8>,
    objects: Vec<ArgumentRef>,
) -> (s: Step)
    requires
        old(broker).wf(),
    ensures
        final(broker).wf(),
        final(broker).nodes() == old(broker).nodes(),
        final(broker).clients() == old(broker).clients(),
        final(broker).hosted() == old(broker).hosted(),
        transaction_outcome(*old(broker), client, id, handle, code, flags, data@, objects@, s),
{
    let oneway = flags & TF_ONE_WAY != 0;
    match broker.transact(client, handle, code, flags, data) {
        Ok(Dispatch::Reply { status, data }) => {
            if oneway {
                Step::Send(Vec::new())
            } else {
                Step::Send(vec![Outgoing { to: Recipient::Client(client), message: reply(id, status, data) }])
            }
        },
        Ok(Dispatch::Local { .. }) => {
            if oneway {
                Step::Send(Vec::new())
            } else {
                let text = bytes_of("a local object is called directly");
                Step::Send(vec![Outgoing { to: Recipient::Client(client), message: reply(id, -1, text) }])
            }
        },
        Ok(Dispatch::Forward { owner, node, code, flags, data }) => {
            let offsets = offsets_of(&objects);
            let message = Message::Incoming { id, node, code, flags, data, objects: offsets };
            Step::Forward { owner, node, id, oneway, message }
        },
        Err(e) => {
            if oneway {
                Step::Send(Vec::new())
            } else {
                let text = e.message();
                let bytes = bytes_of(text.as_str());
                Step::Send(vec![Outgoing { to: Recipient::Client(client), message: reply(id, EX_TRANSACTION_FAILED, bytes) }])
            }
        },
    }
}


/// Whether a reference or link message was refused: its client or its handle
/// is not there.
pub open spec fn handle_missing<T: BinderObject>(b: BinderBroker<T>, client: ClientId, handle: u32) -> bool {
    !b.clients().contains_key(client) || !b.clients()[client].table@.contains_key(handle)
}

/// Whether a link is refused: the handle names nothing with an owner.
pub open spec fn no_owner<T: BinderObject>(b: BinderBroker<T>, client: ClientId, handle: u32) -> bool {
    handle_missing(b, client, handle) || crate::binder::broker::target_owner(
        b.clients()[client].table@[handle].target,
    ) is None
}

/// A lookup's answer, on the connection that asked: the handle, node and
/// owner of the node published under the name, or `NO_HANDLE` and zeros when
/// the name is not published or the client is not connected.
pub open spec fn lookup_answered<T: BinderObject>(
    before: BinderBroker<T>,
    after: BinderBroker<T>,
    client: ClientId,
    id: u32,
    name: Seq<char>,
    out: Seq<Outgoing>,
) -> bool {
    &&& out.len() == 1
    &&& out[0].to == Recipient::Asker
    &&& match out[0].message@ {
        MessageView::Found { id: i, handle, node, owner } => {
            &&& i == id
            &&& !(before.clients().contains_key(client) && crate::binder::broker::name_taken(before.nodes(), name))
                ==> handle == NO_HANDLE && node == 0 && owner == 0
            &&& before.clients().contains_key(client) && crate::binder::broker::name_taken(before.nodes(), name) ==> {
                &&& before.nodes().contains_key(node)
                &&& crate::binder::broker::named_as(before.nodes()[node], name)
                &&& owner == before.nodes()[node].owner
                &&& after.clients()[client].table@.contains_key(handle)
            }
        },
        _ => false,
    }
}

/// A reference or link step that answers nothing and goes on when `done`
/// holds of the broker's success, and ends the session with the broker's
/// refusal when `done` holds of that refusal.
pub open spec fn reference_step(s: Step, done: spec_fn(Result<(), BrokerError>) -> bool) -> bool {
    match s {
        Step::Send(out) => out@.len() == 0 && done(Ok(())),
        Step::Refused(SessionError::Broker(e)) => done(Err(e)),
        _ => false,
    }
}

/// What an export did: the broker did what [`BinderBroker::export`] does,
/// with whatever it answered.
pub open spec fn exported<T: BinderObject>(pre: BinderBroker<T>, post: BinderBroker<T>, client: ClientId, name: Seq<char>, node: u64) -> bool {
    exists|r: Result<(), BrokerError>| #[trigger] BinderBroker::export_done(pre, post, client, name, node, r)
}

/// What a session does with one message from its client.
///
/// A transaction is answered, forwarded or failed as [`transaction_step`]
/// says; an owner's answer is handed to whoever waits for it; references and
/// links go to the broker, and one it refuses ends the session; an export is
/// tried and never ends it; a lookup is answered on the connection that asked,
/// `NO_HANDLE` for a name nobody published; goodbye ends the session; and a
/// kind of message only the broker sends ends it too.
pub fn session_step<T: BinderObject>(broker: &mut BinderBroker<T>, client: ClientId, message: Message) -> (s: Step)
    requires
        old(broker).wf(),
        old(broker).clients().contains_key(client) ==> has_room(old(broker).clients()[client].table@),
    ensures
        final(broker).wf(),
        final(broker).hosted() == old(broker).hosted(),
        match message@ {
            MessageView::Bye => s is End && final(broker).clients() == old(broker).clients(),
            MessageView::Transaction { id, handle, code, flags, data, objects } => transaction_outcome(
                *old(broker),
                client,
                id,
                handle,
                code,
                flags,
                data,
                objects,
                s,
            ),
            MessageView::IncomingReply { id, node, status, data, objects } => s matches Step::Answered {
                node: n,
                id: i,
                status: st,
                data: d,
                objects: o,
            } && n == node && i == id && st == status && d@ == data && o@ == objects && final(broker).clients()
                == old(broker).clients(),
            MessageView::Acquire { handle } => {
                &&& (s is Refused <==> handle_missing(*old(broker), client, handle))
                &&& reference_step(s, |r: Result<(), BrokerError>| BinderBroker::acquire_done(*old(broker), *final(broker), client, handle, r))
            },
            MessageView::Release { handle } => {
                &&& (s is Refused <==> handle_missing(*old(broker), client, handle))
                &&& match s {
                    Step::Send(out) => out@.len() == 0 && exists|n: Option<u64>|
                        #[trigger] BinderBroker::release_done(*old(broker), *final(broker), client, handle, Ok(n)),
                    Step::Refused(SessionError::Broker(e)) => BinderBroker::release_done(*old(broker), *final(broker), client, handle, Err(e)),
                    _ => false,
                }
            },
            MessageView::IncRefs { handle } => {
                &&& (s is Refused <==> handle_missing(*old(broker), client, handle))
                &&& reference_step(s, |r: Result<(), BrokerError>| BinderBroker::inc_refs_done(*old(broker), *final(broker), client, handle, r))
            },
            MessageView::DecRefs { handle } => {
                &&& (s is Refused <==> handle_missing(*old(broker), client, handle))
                &&& match s {
                    Step::Send(out) => out@.len() == 0 && exists|n: Option<u64>|
                        #[trigger] BinderBroker::dec_refs_done(*old(broker), *final(broker), client, handle, Ok(n)),
                    Step::Refused(SessionError::Broker(e)) => BinderBroker::dec_refs_done(*old(broker), *final(broker), client, handle, Err(e)),
                    _ => false,
                }
            },
            MessageView::LinkToDeath { handle } => {
                &&& (s is Refused <==> no_owner(*old(broker), client, handle))
                &&& reference_step(s, |r: Result<(), BrokerError>| BinderBroker::linked(*old(broker), *final(broker), client, handle, r))
            },
            MessageView::UnlinkToDeath { handle } => {
                &&& (s is Refused <==> !old(broker).clients().contains_key(client))
                &&& reference_step(s, |r: Result<(), BrokerError>| BinderBroker::unlinked(*old(broker), *final(broker), client, handle, r))
            },
            MessageView::Export { name, node } => {
                &&& s matches Step::Send(out) && out@.len() == 0
                &&& exported(*old(broker), *final(broker), client, name, node)
            },
            MessageView::Lookup { id, name } => s matches Step::Send(out) && lookup_answered(
                *old(broker),
                *final(broker),
                client,
                id,
                name,
                out@,
            ),
            _ => s matches Step::Refused(e) && e matches SessionError::NotAllowed(m) && m@ == message@
                && final(broker).clients() == old(broker).clients(),
        },
{
    match message {
        Message::Bye => Step::End,
        Message::Transaction { id, handle, code, flags, data, objects } => {
            transaction_step(broker, client, id, handle, code, flags, data, objects)
        },
        Message::IncomingReply { id, node, status, data, objects } => Step::Answered { node, id, status, data, objects },
        Message::Acquire { handle } => match broker.acquire(client, handle) {
            Ok(()) => Step::Send(Vec::new()),
            Err(e) => Step::Refused(SessionError::Broker(e)),
        },
        Message::Release { handle } => {
            let r = broker.release(client, handle);
            match r {
                Ok(n) => {
                    assert(BinderBroker::release_done(*old(broker), *broker, client, handle, Ok(n)));
                    Step::Send(Vec::new())
                },
                Err(e) => Step::Refused(SessionError::Broker(e)),
            }
        },
        Message::IncRefs { handle } => match broker.inc_refs(client, handle) {
            Ok(()) => Step::Send(Vec::new()),
            Err(e) => Step::Refused(SessionError::Broker(e)),
        },
        Message::DecRefs { handle } => {
            let r = broker.dec_refs(client, handle);
            match r {
                Ok(n) => {
                    assert(BinderBroker::dec_refs_done(*old(broker), *broker, client, handle, Ok(n)));
                    Step::Send(Vec::new())
                },
                Err(e) => Step::Refused(SessionError::Broker(e)),
            }
        },
        Message::LinkToDeath { handle } => match broker.link_to_death(client, handle) {
            Ok(()) => Step::Send(Vec::new()),
            Err(e) => Step::Refused(SessionError::Broker(e)),
        },
        Message::UnlinkToDeath { handle } => match broker.unlink_to_death(client, handle) {
            Ok(()) => Step::Send(Vec::new()),
            Err(e) => Step::Refused(SessionError::Broker(e)),
        },
        Message::Export { name, node } => {
            let r = broker.export(client, name.as_str(), node);
            assert(exported(*old(broker), *broker, client, name@, node));
            Step::Send(Vec::new())
        },
        Message::Lookup { id, name } => {
            let found = match broker.lookup(client, name.as_str()) {
                Some((handle, node, owner)) => Message::Found { id, handle, node, owner },
                None => Message::Found { id, handle: NO_HANDLE, node: 0, owner: 0 },
            };
            proof {
                assert(old(broker).clients().contains_key(client) ==> final(broker).clients().contains_key(client));
            }
            Step::Send(vec![Outgoing { to: Recipient::Asker, message: found }])
        },
        other => Step::Refused(SessionError::NotAllowed(other)),
    }
}

/// The notices a departure owes, as the messages each client is sent.
pub fn death_messages(notices: &Vec<DeathNotice>) -> (r: Vec<Outgoing>)
    ensures
        r@.len() == notices@.len(),
        forall|i: int| 0 <= i < r@.len() ==> (#[trigger] r@[i]).to == Recipient::Client(notices@[i].client)
            && r@[i].message@ == (MessageView::Dead { handle: notices@[i].handle }),
{
    let mut r: Vec<Outgoing> = Vec::new();
    let mut i: usize = 0;
    while i < notices.len()
        invariant
            i <= notices@.len(),
            r@.len() == i,
            forall|k: int| 0 <= k < i ==> (#[trigger] r@[k]).to == Recipient::Client(notices@[k].client)
                && r@[k].message@ == (MessageView::Dead { handle: notices@[k].handle }),
        decreases notices@.len() - i,
    {
        let n = notices[i];
        r.push(Outgoing { to: Recipient::Client(n.client), message: Message::Dead { handle: n.handle } });
        i = i + 1;
    }
    r
}


/// A reply's bytes with the object word at `at` carrying `handle` and `node`.
pub open spec fn with_handle(data: Seq<u8>, at: int, handle: u32, node: u64) -> Seq<u8> {
    data.take(at + 8) + le64(handle as u64) + le64(node) + data.skip(at + 24)
}

/// The node an answer's object word at `at` names: the handle in it, looked
/// up in the answering process's table.
pub open spec fn answer_node(t: Map<u32, crate::binder::table::Entry>, data: Seq<u8>, at: int) -> Option<u64> {
    if 0 <= at && at + 28 <= data.len() && t.contains_key(get_le32(data, at + 8)) {
        crate::binder::broker::node_of(t[get_le32(data, at + 8)].target)
    } else {
        None
    }
}

/// Object words at these offsets do not overlap.
pub open spec fn apart(objects: Seq<u32>) -> bool {
    forall|i: int, j: int|
        0 <= i < j < objects.len() ==> #[trigger] objects[i] + 28 <= #[trigger] objects[j] || objects[j] + 28
            <= objects[i]
}

/// Whether `later` has every handle `earlier` has, naming the same object.
pub open spec fn keeps_targets(earlier: Map<u32, crate::binder::table::Entry>, later: Map<u32, crate::binder::table::Entry>) -> bool {
    forall|h: u32| #[trigger] earlier.contains_key(h) ==> later.contains_key(h) && later[h].target == earlier[h].target
}


/// Two byte strings that agree on a word agree on what it carries.
proof fn lemma_same_word(a: Seq<u8>, b: Seq<u8>, at: int)
    requires
        0 <= at,
        at + 28 <= a.len(),
        at + 28 <= b.len(),
        a.subrange(at, at + 28) == b.subrange(at, at + 28),
    ensures
        get_le32(a, at + 8) == get_le32(b, at + 8),
        get_le64(a, at + 16) == get_le64(b, at + 16),
{
    assert forall|k: int| at <= k < at + 28 implies a[k] == b[k] by {
        assert(a.subrange(at, at + 28)[k - at] == a[k]);
        assert(b.subrange(at, at + 28)[k - at] == b[k]);
        assert(a.subrange(at, at + 28)[k - at] == b.subrange(at, at + 28)[k - at]);
    }
}

/// Room for `n` more means room for one more.
proof fn lemma_room_has_room(t: Map<u32, crate::binder::table::Entry>, n: nat)
    requires
        room_for(t, n),
        n >= 1,
    ensures
        has_room(t),
{
}

/// A handle taken keeps every handle's target.
proof fn lemma_took_keeps(before: Map<u32, crate::binder::table::Entry>, after: Map<u32, crate::binder::table::Entry>, target: Target, h: u32)
    requires
        took_handle(before, after, target, h),
    ensures
        keeps_targets(before, after),
        after.contains_key(h),
        after[h].target == target,
{
}

/// A handle taken uses one of the room there was.
proof fn lemma_took_room(before: Map<u32, crate::binder::table::Entry>, after: Map<u32, crate::binder::table::Entry>, target: Target, h: u32, n: nat)
    requires
        took_handle(before, after, target, h),
        room_for(before, n + 1),
        before.dom().finite(),
    ensures
        room_for(after, n),
{
    if !before.contains_key(h) {
        assert(after.len() == before.len() + 1);
    } else {
        assert(after.dom() =~= before.dom());
    }
}

/// The word written carries the handle and the node.
proof fn lemma_written_word(data: Seq<u8>, at: int, handle: u32, node: u64)
    requires
        0 <= at,
        at + 28 <= data.len(),
    ensures
        with_handle(data, at, handle, node).len() == data.len(),
        get_le32(with_handle(data, at, handle, node), at + 8) == handle,
        get_le64(with_handle(data, at, handle, node), at + 16) == node,
{
    let w = with_handle(data, at, handle, node);
    let pre = data.take(at + 8);
    crate::octets::lemma_le64_at(pre + le64(handle as u64), node, data.skip(at + 24));
    assert(w == (pre + le64(handle as u64)) + le64(node) + data.skip(at + 24));
    let lo = ((handle as u64) & 0xffff_ffff) as u32;
    let hi = ((handle as u64) >> 32u64) as u32;
    assert(((handle as u64) & 0xffff_ffff) as u32 == handle) by (bit_vector);
    assert(w == pre + crate::octets::le32(lo) + (crate::octets::le32(hi) + le64(node) + data.skip(at + 24)));
    crate::octets::lemma_le32_at(pre, lo, crate::octets::le32(hi) + le64(node) + data.skip(at + 24));
}

/// Writing a word leaves every byte outside it as it was.
proof fn lemma_with_handle_elsewhere(data: Seq<u8>, at: int, handle: u32, node: u64, k: int)
    requires
        0 <= at,
        at + 28 <= data.len(),
        0 <= k < data.len(),
        !(at + 8 <= k < at + 24),
    ensures
        with_handle(data, at, handle, node)[k] == data[k],
{
}

/// Write `handle` and `node` into the object word at `at`.
fn write_handle(data: &mut Vec<u8>, at: usize, handle: u32, node: u64)
    requires
        at + 28 <= old(data)@.len(),
    ensures
        final(data)@ == with_handle(old(data)@, at as int, handle, node),
{
    let n = data.len();
    assert(at + 28 <= n);
    let head = at + 8;
    let mut out: Vec<u8> = Vec::new();
    let mut i: usize = 0;
    while i < head
        invariant
            head == at + 8,
            at + 28 <= data@.len(),
            i <= at + 8,
            out@ == data@.take(i as int),
        decreases head - i,
    {
        out.push(data[i]);
        i = i + 1;
        assert(out@ =~= data@.take(i as int));
    }
    crate::octets::push_le64(&mut out, handle as u64);
    crate::octets::push_le64(&mut out, node);
    let mut k: usize = head + 16;
    while k < data.len()
        invariant
            at + 28 <= data@.len(),
            at + 24 <= k <= data@.len(),
            out@ == data@.take(at + 8) + le64(handle as u64) + le64(node) + data@.subrange(at + 24, k as int),
        decreases data@.len() - k,
    {
        out.push(data[k]);
        k = k + 1;
        assert(out@ =~= data@.take(at + 8) + le64(handle as u64) + le64(node) + data@.subrange(at + 24, k as int));
    }
    assert(data@.subrange(at + 24, k as int) =~= data@.skip(at + 24));
    *data = out;
}

/// An owner's answer, rewritten for the process that asked.
///
/// Each object in it is a handle in the owner's table, and the asker has its
/// own: passing the number through would point at whatever sits at that
/// number there. Each one that names a node the broker has gets the asker's
/// own handle for the node, with the node beside it; one that does not is
/// left out of the answer's objects.
#[verifier::rlimit(40)]
pub fn relay_reply<T: BinderObject>(
    broker: &mut BinderBroker<T>,
    callee: ClientId,
    caller: ClientId,
    id: u32,
    status: i32,
    data: Vec<u8>,
    objects: Vec<u32>,
) -> (m: Message)
    requires
        old(broker).wf(),
        callee != caller,
        old(broker).clients().contains_key(caller) ==> room_for(
            old(broker).clients()[caller].table@,
            objects@.len(),
        ),
    ensures
        final(broker).wf(),
        final(broker).nodes() == old(broker).nodes(),
        final(broker).hosted() == old(broker).hosted(),
        final(broker).clients().dom() == old(broker).clients().dom(),
        forall|c: ClientId| #[trigger] final(broker).clients().contains_key(c) && c != caller
            ==> final(broker).clients()[c] == old(broker).clients()[c],
        old(broker).clients().contains_key(caller) ==> keeps_targets(
            old(broker).clients()[caller].table@,
            final(broker).clients()[caller].table@,
        ),
        m matches Message::Reply { id: i, status: st, data: d, objects: kept } && {
            let callee_table = if old(broker).clients().contains_key(callee) {
                old(broker).clients()[callee].table@
            } else {
                Map::empty()
            };
            &&& i == id
            &&& st == status
            &&& d@.len() == data@.len()
            &&& kept@.len() <= objects@.len()
            &&& forall|j: int| 0 <= j < kept@.len() ==> objects@.contains(#[trigger] kept@[j])
            &&& kept@.len() > 0 ==> old(broker).clients().contains_key(caller)
            &&& forall|j: int| 0 <= j < kept@.len() ==> #[trigger] kept@[j] + 28 <= data@.len()
            &&& apart(objects@) ==> forall|j: int| #![trigger kept@[j]] 0 <= j < kept@.len() ==> {
                let n = answer_node(callee_table, data@, kept@[j] as int)->Some_0;
                &&& answer_node(callee_table, data@, kept@[j] as int) is Some
                &&& old(broker).nodes().contains_key(n)
                &&& get_le64(d@, kept@[j] + 16) == n
                &&& final(broker).clients()[caller].table@.contains_key(get_le32(d@, kept@[j] + 8))
                &&& final(broker).clients()[caller].table@[get_le32(d@, kept@[j] + 8)].target
                    == old(broker).target_for(caller, n)
            }
            &&& apart(objects@) && old(broker).clients().contains_key(caller) ==> forall|j: int|
                #![trigger objects@[j]]
                0 <= j < objects@.len() && answer_node(callee_table, data@, objects@[j] as int) is Some
                    && old(broker).nodes().contains_key(answer_node(callee_table, data@, objects@[j] as int)->Some_0)
                    ==> kept@.contains(objects@[j])
        },
{
    let mut data = data;
    let mut kept: Vec<u32> = Vec::new();
    let ghost data0 = data@;
    let ghost b0 = *broker;
    let ghost callee_table = if b0.clients().contains_key(callee) {
        b0.clients()[callee].table@
    } else {
        Map::empty()
    };
    let mut i: usize = 0;
    while i < objects.len()
        invariant
            i <= objects@.len(),
            callee != caller,
            broker.wf(),
            broker.nodes() == b0.nodes(),
            broker.hosted() == b0.hosted(),
            broker.clients().dom() == b0.clients().dom(),
            forall|c: ClientId| #[trigger] broker.clients().contains_key(c) && c != caller
                ==> broker.clients()[c] == b0.clients()[c],
            b0.clients().contains_key(caller) ==> keeps_targets(b0.clients()[caller].table@, broker.clients()[caller].table@),
            b0.clients().contains_key(caller) ==> room_for(broker.clients()[caller].table@, (objects@.len() - i) as nat),
            callee_table == (if b0.clients().contains_key(callee) { b0.clients()[callee].table@ } else { Map::empty() }),
            data@.len() == data0.len(),
            kept@.len() <= i,
            forall|j: int| 0 <= j < kept@.len() ==> objects@.take(i as int).contains(#[trigger] kept@[j]),
            kept@.len() > 0 ==> b0.clients().contains_key(caller),
            forall|j: int| 0 <= j < kept@.len() ==> #[trigger] kept@[j] + 28 <= data0.len(),
            apart(objects@) ==> forall|j: int| #![trigger objects@[j]] i <= j < objects@.len() && objects@[j] + 28 <= data0.len()
                ==> data@.subrange(objects@[j] as int, objects@[j] + 28) == data0.subrange(objects@[j] as int, objects@[j] + 28),
            apart(objects@) ==> forall|j: int| #![trigger kept@[j]] 0 <= j < kept@.len() ==> {
                let n = answer_node(callee_table, data0, kept@[j] as int)->Some_0;
                &&& answer_node(callee_table, data0, kept@[j] as int) is Some
                &&& b0.nodes().contains_key(n)
                &&& get_le64(data@, kept@[j] + 16) == n
                &&& broker.clients()[caller].table@.contains_key(get_le32(data@, kept@[j] + 8))
                &&& broker.clients()[caller].table@[get_le32(data@, kept@[j] + 8)].target == b0.target_for(caller, n)
            },
            apart(objects@) && b0.clients().contains_key(caller) ==> forall|j: int|
                #![trigger objects@[j]]
                0 <= j < i && answer_node(callee_table, data0, objects@[j] as int) is Some
                    && b0.nodes().contains_key(answer_node(callee_table, data0, objects@[j] as int)->Some_0)
                    ==> kept@.contains(objects@[j]),
        decreases objects@.len() - i,
    {
        let offset = objects[i];
        let at = offset as usize;
        let ghost before = data@;
        let ghost kept_before = kept@;
        let ghost broker_before = *broker;
        let ghost mut wrote = false;
        let ghost mut wn: u64 = 0;
        let ghost mut wh: u32 = 0;
        proof {
            if apart(objects@) && at + 28 <= data0.len() {
                assert(objects@[i as int] == offset);
                assert(before.subrange(at as int, at + 28) == data0.subrange(at as int, at + 28));
                lemma_same_word(before, data0, at as int);
            }
        }
        if at <= data.len() && data.len() - at >= 28 {
            let handle = read_le32(data.as_slice(), at + 8);
            let node = match broker.target_of(callee, handle) {
                Some(Target::Remote { node, .. }) => Some(node),
                Some(Target::Local(node)) => Some(node),
                _ => None,
            };
            proof {
                if b0.clients().contains_key(callee) {
                    assert(broker.clients()[callee] == b0.clients()[callee]);
                }
                assert(node == answer_node(callee_table, before, at as int));
            }
            match node {
                Some(node) => {
                    proof {
                        if b0.clients().contains_key(caller) {
                            lemma_room_has_room(broker.clients()[caller].table@, (objects@.len() - i) as nat);
                        }
                    }
                    match broker.handle_for(caller, node) {
                        Some(h) => {
                            proof {
                                broker_before.clients()[caller].table.lemma_view_finite();
                                assert(broker_before.target_for(caller, node) == b0.target_for(caller, node));
                                lemma_took_keeps(
                                    broker_before.clients()[caller].table@,
                                    broker.clients()[caller].table@,
                                    b0.target_for(caller, node),
                                    h,
                                );
                                lemma_took_room(
                                    broker_before.clients()[caller].table@,
                                    broker.clients()[caller].table@,
                                    b0.target_for(caller, node),
                                    h,
                                    (objects@.len() - i - 1) as nat,
                                );
                            }
                            write_handle(&mut data, at, h, node);
                            kept.push(offset);
                            proof {
                                wrote = true;
                                wn = node;
                                wh = h;
                                lemma_written_word(before, at as int, h, node);
                            }
                        },
                        None => {},
                    }
                },
                None => {},
            }
        }
        proof {
            let t0 = broker_before.clients()[caller].table@;
            let t1 = broker.clients()[caller].table@;
            if !wrote {
                assert(data@ == before);
                assert(kept@ == kept_before);
            } else {
                assert(kept@ == kept_before.push(offset));
                assert(b0.clients().contains_key(caller));
                assert(offset + 28 <= data0.len());
            }
            assert forall|j: int| 0 <= j < kept@.len() implies #[trigger] kept@[j] + 28 <= data0.len() by {
                if j < kept_before.len() {
                    assert(kept@[j] == kept_before[j]);
                }
            }
            // What was kept before is still among the first offsets.
            assert forall|j: int| 0 <= j < kept@.len() implies objects@.take(i + 1).contains(#[trigger] kept@[j]) by {
                if j < kept_before.len() {
                    assert(objects@.take(i as int).contains(kept_before[j]));
                    let m = choose|m: int| 0 <= m < i && objects@.take(i as int)[m] == kept_before[j];
                    assert(objects@.take(i + 1)[m] == kept@[j]);
                } else {
                    assert(objects@.take(i + 1)[i as int] == kept@[j]);
                }
            }
            // The words not yet read are as they came.
            if apart(objects@) {
                assert forall|j: int| #![trigger objects@[j]] i + 1 <= j < objects@.len() && objects@[j] + 28 <= data0.len()
                    implies data@.subrange(objects@[j] as int, objects@[j] + 28) == data0.subrange(objects@[j] as int, objects@[j] + 28) by {
                    assert(before.subrange(objects@[j] as int, objects@[j] + 28) == data0.subrange(objects@[j] as int, objects@[j] + 28));
                    if wrote {
                        assert(objects@[i as int] + 28 <= objects@[j] || objects@[j] + 28 <= objects@[i as int]);
                        assert forall|k: int| objects@[j] <= k < objects@[j] + 28 implies data@[k] == before[k] by {
                            lemma_with_handle_elsewhere(before, at as int, wh, wn, k);
                        }
                        assert(data@.subrange(objects@[j] as int, objects@[j] + 28) =~= before.subrange(objects@[j] as int, objects@[j] + 28));
                    }
                }
                // The words kept carry the asker's handles.
                assert forall|j: int| #![trigger kept@[j]] 0 <= j < kept@.len() implies ({
                    let n = answer_node(callee_table, data0, kept@[j] as int)->Some_0;
                    &&& answer_node(callee_table, data0, kept@[j] as int) is Some
                    &&& b0.nodes().contains_key(n)
                    &&& get_le64(data@, kept@[j] + 16) == n
                    &&& t1.contains_key(get_le32(data@, kept@[j] + 8))
                    &&& t1[get_le32(data@, kept@[j] + 8)].target == b0.target_for(caller, n)
                }) by {
                    if j < kept_before.len() {
                        let k = kept@[j];
                        assert(kept_before[j] == k);
                        if wrote {
                            assert(objects@.take(i as int).contains(k));
                            let m = choose|m: int| 0 <= m < i && objects@.take(i as int)[m] == k;
                            assert(objects@[m] == k);
                            assert(objects@[m] + 28 <= objects@[i as int] || objects@[i as int] + 28 <= objects@[m]);
                            assert forall|q: int| k <= q < k + 28 implies data@[q] == before[q] by {
                                lemma_with_handle_elsewhere(before, at as int, wh, wn, q);
                            }
                            assert(data@.subrange(k as int, k + 28) =~= before.subrange(k as int, k + 28));
                            lemma_same_word(data@, before, k as int);
                        }
                    } else {
                        assert(kept@[j] == offset);
                    }
                }
                // Every word that names a node is kept.
                if b0.clients().contains_key(caller) {
                    assert forall|j: int| #![trigger objects@[j]] 0 <= j < i + 1 && answer_node(callee_table, data0, objects@[j] as int) is Some
                        && b0.nodes().contains_key(answer_node(callee_table, data0, objects@[j] as int)->Some_0)
                        implies kept@.contains(objects@[j]) by {
                        if j < i {
                            assert(kept_before.contains(objects@[j]));
                            let m = choose|m: int| 0 <= m < kept_before.len() && kept_before[m] == objects@[j];
                            assert(kept@[m] == objects@[j]);
                        } else {
                            assert(wrote);
                            assert(kept@[kept@.len() - 1] == objects@[j]);
                        }
                    }
                }
            }
            if b0.clients().contains_key(caller) && !wrote {
                assert(t1 == t0);
            }
        }
        i = i + 1;
    }
    proof {
        assert(objects@.take(i as int) =~= objects@);
    }
    Message::Reply { id, status, data, objects: kept }
}

} // verus!
