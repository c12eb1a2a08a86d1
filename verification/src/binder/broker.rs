//! The Binder authority: who owns what, who may reach it, and what happens
//! when a process goes away.
//!
//! The broker hosts this. It is the userspace stand-in for the driver's
//! bookkeeping: one handle table per connected process, one record per node,
//! and the routing rule between them. Nothing here reads parcels; a hosted
//! object gets the bytes and answers with bytes.

use std::collections::HashMap;
use vstd::prelude::*;
use vstd::std_specs::hash::spec_keys_iter;
use vstd::std_specs::iter::IteratorSpec;

use crate::binder::parcel::{INTERFACE_TRANSACTION, PING_TRANSACTION};
use crate::binder::service::{interface_reply, no_service_text, BinderObject, ServiceRegistry};
use crate::octets::push_bytes;
use crate::binder::table::{owned_by, Entry, HandleTable, Released, Target};
use crate::binder::{Answer, ClientId, SERVICE_MANAGER};
use crate::broker::registry::{names_in_order, sort_names};
use crate::text::{decimal_chars, push_decimal, push_str, same_text, string_of};

verus! {

broadcast use vstd::std_specs::hash::group_hash_axioms;

/// The broker's own services get node ids that a process-allocated id cannot
/// collide with: a client's node is `pid << 32 | counter`, and this is 2^40.
pub const HOSTED_NODE_BASE: u64 = 0x100_0000_0000;

/// What the broker did with a transaction.
#[derive(Debug)]
pub enum Dispatch {
    /// The broker answered it, from a service it hosts.
    Reply { status: i32, data: Vec<u8> },
    /// The caller owns the target. It runs it itself; the broker only had to
    /// say so.
    Local { node: u64 },
    /// The target belongs to another process. The transport sends it there and
    /// relays the answer.
    Forward { owner: ClientId, node: u64, code: u32, flags: u32, data: Vec<u8> },
}

/// A client that should be told a handle died.
#[derive(Debug, Clone, Copy, PartialEq, Eq, Structural)]
pub struct DeathNotice {
    pub client: ClientId,
    pub handle: u32,
}

/// One node: the process that owns it, and the name it is published under.
pub struct NodeRecord {
    pub owner: ClientId,
    pub name: Option<String>,
}

/// One connected process.
pub struct ClientRecord {
    /// The peer's pid, from the kernel.
    pub pid: u32,
    pub table: HandleTable,
    /// Handles this client asked to be told about, and who owns each.
    pub links: Vec<(u32, ClientId)>,
}

/// Why the broker refused a request.
#[derive(Debug, Clone, PartialEq, Eq)]
pub enum BrokerError {
    /// No connection has this id.
    NoClient(ClientId),
    /// The client's table has no such handle.
    NoHandle(u32),
    /// A transaction named a handle the client does not hold.
    NoHandleIn { handle: u32, client: ClientId },
    /// The node id carries another process's pid.
    NotOwned { node: u64, pid: u32 },
    /// The name is already published.
    Registered(String),
    /// Handle 0 is answered by the shim, not routed.
    ServiceManager,
    /// The handle names nothing that has an owner.
    NoOwner(u32),
}

/// What a refusal says.
pub open spec fn broker_error_text(e: BrokerError) -> Seq<char> {
    match e {
        BrokerError::NoClient(c) => "no such client: "@ + decimal_chars(c as nat),
        BrokerError::NoHandle(h) => "no handle "@ + decimal_chars(h as nat),
        BrokerError::NoHandleIn { handle, client } => "no handle "@ + decimal_chars(handle as nat)
            + " in client "@ + decimal_chars(client as nat),
        BrokerError::NotOwned { node, pid } => "node "@ + decimal_chars(node as nat)
            + " does not belong to pid "@ + decimal_chars(pid as nat),
        BrokerError::Registered(name) => name@ + " is already registered"@,
        BrokerError::ServiceManager => "the service manager is the shim's to answer"@,
        BrokerError::NoOwner(h) => "handle "@ + decimal_chars(h as nat) + " has no owner"@,
    }
}

impl BrokerError {
    /// The refusal as text.
    pub fn message(&self) -> (s: String)
        ensures
            s@ == broker_error_text(*self),
    {
        let mut v: Vec<char> = Vec::new();
        match self {
            BrokerError::NoClient(c) => {
                push_str(&mut v, "no such client: ");
                push_decimal(&mut v, *c as u64);
            },
            BrokerError::NoHandle(h) => {
                push_str(&mut v, "no handle ");
                push_decimal(&mut v, *h as u64);
            },
            BrokerError::NoHandleIn { handle, client } => {
                push_str(&mut v, "no handle ");
                push_decimal(&mut v, *handle as u64);
                push_str(&mut v, " in client ");
                push_decimal(&mut v, *client as u64);
            },
            BrokerError::NotOwned { node, pid } => {
                push_str(&mut v, "node ");
                push_decimal(&mut v, *node);
                push_str(&mut v, " does not belong to pid ");
                push_decimal(&mut v, *pid as u64);
            },
            BrokerError::Registered(name) => {
                push_str(&mut v, name.as_str());
                push_str(&mut v, " is already registered");
            },
            BrokerError::ServiceManager => {
                push_str(&mut v, "the service manager is the shim's to answer");
            },
            BrokerError::NoOwner(h) => {
                push_str(&mut v, "handle ");
                push_decimal(&mut v, *h as u64);
                push_str(&mut v, " has no owner");
            },
        }
        string_of(v.as_slice())
    }
}

/// The node a target names, if it names one.
pub open spec fn node_of(t: Target) -> Option<u64> {
    match t {
        Target::ServiceManager => None,
        Target::Local(n) => Some(n),
        Target::Remote { node, .. } => Some(node),
    }
}

/// Whether a node is published under `name`.
pub open spec fn named_as(r: NodeRecord, name: Seq<char>) -> bool {
    match r.name {
        Some(s) => s@ == name,
        None => false,
    }
}

/// Whether a table holds a handle to `node`.
pub open spec fn holds(t: Map<u32, Entry>, node: u64) -> bool {
    exists|h: u32| #[trigger] t.contains_key(h) && node_of(t[h].target) == Some(node)
}

/// A table whose counts can all take one more reference, and which has room
/// for one more handle.
pub open spec fn has_room(t: Map<u32, Entry>) -> bool {
    &&& t.len() < u32::MAX
    &&& forall|h: u32| #[trigger] t.contains_key(h) ==> t[h].strong < u32::MAX && t[h].weak < u32::MAX
}

/// A table that can take `n` more handles and `n` more references on each.
pub open spec fn room_for(t: Map<u32, Entry>, n: nat) -> bool {
    &&& t.len() + n < u32::MAX
    &&& forall|h: u32| #[trigger] t.contains_key(h) ==> t[h].strong + n < u32::MAX && t[h].weak + n < u32::MAX
}

/// The table a fresh connection starts with: handle 0, the service manager.
pub open spec fn fresh_table() -> Map<u32, Entry> {
    map![0u32 => Entry { target: Target::ServiceManager, strong: 1, weak: 1 }]
}

/// `after` is `before` with `node` set to a record owned by `owner` and
/// published under `name`.
pub open spec fn put_node(before: Map<u64, NodeRecord>, after: Map<u64, NodeRecord>, node: u64, owner: ClientId, name: Seq<char>) -> bool {
    &&& after.dom() == before.dom().insert(node)
    &&& after[node].owner == owner
    &&& named_as(after[node], name)
    &&& forall|n: u64| #[trigger] after.contains_key(n) && n != node ==> after[n] == before[n]
}

/// `after` is `before` once `target` got handle `h` from
/// [`HandleTable::handle_for`]: one more strong reference on the handle that
/// already names it, or a new handle that did not exist.
pub open spec fn took_handle(before: Map<u32, Entry>, after: Map<u32, Entry>, target: Target, h: u32) -> bool {
    if exists|k: u32| #[trigger] before.contains_key(k) && before[k].target == target {
        &&& before.contains_key(h)
        &&& before[h].target == target
        &&& after == before.insert(h, Entry { strong: (before[h].strong + 1) as u32, ..before[h] })
    } else {
        &&& h != 0
        &&& !before.contains_key(h)
        &&& after == before.insert(h, Entry { target, strong: 1, weak: 1 })
    }
}

/// The strings' characters.
pub open spec fn texts(v: Seq<String>) -> Seq<Seq<char>> {
    v.map_values(|s: String| s@)
}

/// Whether some node is published under `name`.
pub open spec fn name_taken(nodes: Map<u64, NodeRecord>, name: Seq<char>) -> bool {
    exists|n: u64| #[trigger] nodes.contains_key(n) && named_as(nodes[n], name)
}

/// The pid a node id carries in its high half.
pub open spec fn node_pid(node: u64) -> int {
    node as int / 0x1_0000_0000
}

/// What the broker answers for a hosted node, as a status and bytes: the
/// object's reply, or why there is none. A refusal is status -1 and its text.
/// `answered(name, a)` says that `a` is an answer the object hosted under
/// `name` gives to the call, and `described(name, d)` that `d` is a
/// descriptor it gives for itself.
pub open spec fn hosted_reply_is(
    nodes: Map<u64, NodeRecord>,
    hosted: Set<Seq<char>>,
    answered: spec_fn(Seq<char>, Result<Answer, String>) -> bool,
    described: spec_fn(Seq<char>, String) -> bool,
    node: u64,
    code: u32,
    status: i32,
    data: Seq<u8>,
) -> bool {
    match (if nodes.contains_key(node) { nodes[node].name } else { None }) {
        None => status == -1 && data == vstd::utf8::encode_utf8("no such object"@),
        Some(name) => if !hosted.contains(name@) {
            status == -1 && data == vstd::utf8::encode_utf8(no_service_text(name@))
        } else if code == PING_TRANSACTION {
            status == 0 && data.len() == 0
        } else if code == INTERFACE_TRANSACTION {
            status == 0 && exists|d: String| described(name@, d) && data == #[trigger] interface_reply(d@)
        } else {
            exists|a: Result<Answer, String>| answered(name@, a) && #[trigger] reply_made(a, status, data)
        },
    }
}

/// The reply the broker makes of a hosted object's answer: status 0 and the
/// answer's data when it answered, status -1 and the error's text when it
/// failed.
pub open spec fn reply_made(a: Result<Answer, String>, status: i32, data: Seq<u8>) -> bool {
    match a {
        Ok(answer) => status == 0 && data == answer.data@,
        Err(e) => status == -1 && data == vstd::utf8::encode_utf8(e@),
    }
}

/// The reply for a hosted object's answer, as [`reply_made`] says.
pub fn reply_of(answer: Result<Answer, String>) -> (d: Dispatch)
    ensures
        d matches Dispatch::Reply { status, data } && reply_made(answer, status, data@),
{
    match answer {
        Ok(a) => Dispatch::Reply { status: 0, data: a.data },
        Err(e) => {
            let mut bytes: Vec<u8> = Vec::new();
            push_bytes(&mut bytes, e.as_str().as_bytes());
            Dispatch::Reply { status: -1, data: bytes }
        },
    }
}

/// What the broker answers for a hosted node.
pub open spec fn hosted_answer(
    nodes: Map<u64, NodeRecord>,
    hosted: Set<Seq<char>>,
    answered: spec_fn(Seq<char>, Result<Answer, String>) -> bool,
    described: spec_fn(Seq<char>, String) -> bool,
    node: u64,
    code: u32,
    d: Dispatch,
) -> bool {
    match d {
        Dispatch::Reply { status, data } => hosted_reply_is(nodes, hosted, answered, described, node, code, status, data@),
        _ => false,
    }
}

/// The process a target belongs to, if it is not the table's own node.
pub open spec fn target_owner(t: Target) -> Option<ClientId> {
    match t {
        Target::ServiceManager => Some(SERVICE_MANAGER),
        Target::Local(_) => None,
        Target::Remote { owner, .. } => Some(owner),
    }
}

/// Whether some connected process holds a handle to `node`.
pub open spec fn held(clients: Map<ClientId, ClientRecord>, node: u64) -> bool {
    exists|c: ClientId| #[trigger] clients.contains_key(c) && holds(clients[c].table@, node)
}

/// The nodes once `node` is collected: it goes if it exists, is not the
/// broker's own, and no process holds a handle to it.
pub open spec fn collected(nodes: Map<u64, NodeRecord>, clients: Map<ClientId, ClientRecord>, node: u64) -> Map<u64, NodeRecord> {
    if nodes.contains_key(node) && nodes[node].owner != SERVICE_MANAGER && !held(clients, node) {
        nodes.remove(node)
    } else {
        nodes
    }
}

/// The links that are not about `handle`.
pub open spec fn links_without_handle(links: Seq<(u32, ClientId)>, handle: u32) -> Seq<(u32, ClientId)> {
    links.filter(|l: (u32, ClientId)| l.0 != handle)
}

/// The links that are not about handles `owner` owns.
pub open spec fn links_without_owner(links: Seq<(u32, ClientId)>, owner: ClientId) -> Seq<(u32, ClientId)> {
    links.filter(|l: (u32, ClientId)| l.1 != owner)
}

/// The links that are not about `handle`.
fn retain_other_handles(links: &Vec<(u32, ClientId)>, handle: u32) -> (r: Vec<(u32, ClientId)>)
    ensures
        r@ == links_without_handle(links@, handle),
{
    let mut r: Vec<(u32, ClientId)> = Vec::new();
    let mut i: usize = 0;
    while i < links.len()
        invariant
            i <= links@.len(),
            r@ == links_without_handle(links@.take(i as int), handle),
        decreases links@.len() - i,
    {
        let l = links[i];
        proof {
            reveal(Seq::filter);
            assert(links@.take(i + 1).drop_last() =~= links@.take(i as int));
        }
        if l.0 != handle {
            r.push(l);
        }
        i = i + 1;
    }
    assert(links@.take(i as int) =~= links@);
    r
}

/// The links that are not about handles `owner` owns.
fn retain_other_owners(links: &Vec<(u32, ClientId)>, owner: ClientId) -> (r: Vec<(u32, ClientId)>)
    ensures
        r@ == links_without_owner(links@, owner),
{
    let mut r: Vec<(u32, ClientId)> = Vec::new();
    let mut i: usize = 0;
    while i < links.len()
        invariant
            i <= links@.len(),
            r@ == links_without_owner(links@.take(i as int), owner),
        decreases links@.len() - i,
    {
        let l = links[i];
        proof {
            reveal(Seq::filter);
            assert(links@.take(i + 1).drop_last() =~= links@.take(i as int));
        }
        if l.1 != owner {
            r.push(l);
        }
        i = i + 1;
    }
    assert(links@.take(i as int) =~= links@);
    r
}

/// Whether a table holds a handle to `node`.
fn table_holds(table: &HandleTable, node: u64) -> (r: bool)
    ensures
        r == holds(table@, node),
{
    let all = table.handles();
    let mut i: usize = 0;
    while i < all.len()
        invariant
            i <= all@.len(),
            forall|k: int|
                0 <= k < all@.len() ==> table@.contains_key((#[trigger] all@[k]).0) && table@[all@[k].0].target
                    == all@[k].1,
            forall|h: u32| #[trigger] table@.contains_key(h) ==> exists|k: int| 0 <= k < all@.len() && (#[trigger] all@[k]).0 == h,
            forall|k: int| 0 <= k < i ==> node_of((#[trigger] all@[k]).1) != Some(node),
        decreases all@.len() - i,
    {
        if all[i].1.node() == Some(node) {
            assert(table@.contains_key(all@[i as int].0));
            return true;
        }
        i = i + 1;
    }
    proof {
        assert forall|h: u32| #[trigger] table@.contains_key(h) implies node_of(table@[h].target) != Some(node) by {
            let k = choose|k: int| 0 <= k < all@.len() && (#[trigger] all@[k]).0 == h;
            assert(node_of(all@[k].1) != Some(node));
        }
    }
    false
}

/// Whether `h` is a process other than `client` that holds a handle to a
/// node `client` owns: one of the processes a departure concerns.
pub open spec fn affected(nodes: Map<u64, NodeRecord>, clients: Map<ClientId, ClientRecord>, client: ClientId, h: ClientId) -> bool {
    &&& h != client
    &&& clients.contains_key(h)
    &&& exists|n: u64| #[trigger] nodes.contains_key(n) && nodes[n].owner == client && holds(clients[h].table@, n)
}

/// Whether some link names `owner`.
pub open spec fn linked(links: Seq<(u32, ClientId)>, owner: ClientId) -> bool {
    exists|i: int| 0 <= i < links.len() && (#[trigger] links[i]).1 == owner
}

/// A table without the handles to objects `owner` owns.
pub open spec fn table_without_owner(t: Map<u32, Entry>, owner: ClientId) -> Map<u32, Entry> {
    Map::new(|h: u32| t.contains_key(h) && !owned_by(t[h].target, owner), |h: u32| t[h])
}

/// Whether `n` is a notice a departure of `client` owes: to an affected
/// process that asked to hear about `client`, for a handle to `client`'s
/// objects.
pub open spec fn owed_notice(nodes: Map<u64, NodeRecord>, clients: Map<ClientId, ClientRecord>, client: ClientId, n: DeathNotice) -> bool {
    &&& affected(nodes, clients, client, n.client)
    &&& linked(clients[n.client].links@, client)
    &&& clients[n.client].table@.contains_key(n.handle)
    &&& owned_by(clients[n.client].table@[n.handle].target, client)
}

/// Whether some link names `owner`.
fn links_name(links: &Vec<(u32, ClientId)>, owner: ClientId) -> (r: bool)
    ensures
        r == linked(links@, owner),
{
    let mut i: usize = 0;
    while i < links.len()
        invariant
            i <= links@.len(),
            forall|k: int| 0 <= k < i ==> (#[trigger] links@[k]).1 != owner,
        decreases links@.len() - i,
    {
        if links[i].1 == owner {
            return true;
        }
        i = i + 1;
    }
    false
}

/// Whether a table holds a handle to any of `nodes`.
fn holds_any(table: &HandleTable, nodes: &Vec<u64>) -> (r: bool)
    ensures
        r == exists|i: int| 0 <= i < nodes@.len() && holds(table@, #[trigger] nodes@[i]),
{
    let mut i: usize = 0;
    while i < nodes.len()
        invariant
            i <= nodes@.len(),
            forall|k: int| 0 <= k < i ==> !holds(table@, #[trigger] nodes@[k]),
        decreases nodes@.len() - i,
    {
        if table_holds(table, nodes[i]) {
            return true;
        }
        i = i + 1;
    }
    false
}

/// The Binder authority.
pub struct BinderBroker<T> {
    hosted: ServiceRegistry<T>,
    nodes: HashMap<u64, NodeRecord>,
    clients: HashMap<ClientId, ClientRecord>,
    next_client: ClientId,
    next_hosted_node: u64,
}

/// Every key of a map of nodes, once each.
fn node_ids(m: &HashMap<u64, NodeRecord>) -> (r: Vec<u64>)
    ensures
        r@.to_set() == m@.dom(),
        r@.no_duplicates(),
{
    let ghost ks = spec_keys_iter(m).remaining();
    let mut out: Vec<u64> = Vec::new();
    for k in it: m.keys()
        invariant
            it.seq() == ks,
            ks == spec_keys_iter(m).remaining(),
            out@.len() == it.index(),
            forall|i: int| 0 <= i < out@.len() ==> out@[i] == *ks[i],
    {
        out.push(*k);
    }
    proof {
        assert(out@ =~= ks.unref());
        assert forall|i: int, j: int| 0 <= i < j < out@.len() implies out@[i] != out@[j] by {
            assert(ks[i] != ks[j]);
        }
    }
    out
}

/// Every key of a map of clients, once each.
fn client_ids(m: &HashMap<ClientId, ClientRecord>) -> (r: Vec<ClientId>)
    ensures
        r@.to_set() == m@.dom(),
        r@.no_duplicates(),
{
    let ghost ks = spec_keys_iter(m).remaining();
    let mut out: Vec<ClientId> = Vec::new();
    for k in it: m.keys()
        invariant
            it.seq() == ks,
            ks == spec_keys_iter(m).remaining(),
            out@.len() == it.index(),
            forall|i: int| 0 <= i < out@.len() ==> out@[i] == *ks[i],
    {
        out.push(*k);
    }
    proof {
        assert(out@ =~= ks.unref());
        assert forall|i: int, j: int| 0 <= i < j < out@.len() implies out@[i] != out@[j] by {
            assert(ks[i] != ks[j]);
        }
    }
    out
}

impl<T: BinderObject> BinderBroker<T> {
    /// The nodes, by id.
    pub closed spec fn nodes(&self) -> Map<u64, NodeRecord> {
        self.nodes@
    }

    /// The connected processes, by id.
    pub closed spec fn clients(&self) -> Map<ClientId, ClientRecord> {
        self.clients@
    }

    /// The id the next connection gets.
    pub closed spec fn next_client(&self) -> ClientId {
        self.next_client
    }

    /// The node the next hosted service gets.
    pub closed spec fn next_hosted(&self) -> u64 {
        self.next_hosted_node
    }

    /// The names of the services the broker hosts.
    pub closed spec fn hosted(&self) -> Set<Seq<char>> {
        self.hosted.registered()
    }

    /// The service hosted under `name`.
    pub closed spec fn hosted_object(&self, name: Seq<char>) -> T {
        self.hosted.object_named(name)
    }

    /// Which descriptors the hosted services give for themselves: `d` for the
    /// service named `name` where its `descriptor` may return `d`.
    pub open spec fn hosted_descriptors(&self) -> spec_fn(Seq<char>, String) -> bool {
        |name: Seq<char>, d: String| call_ensures(T::descriptor, (&self.hosted_object(name),), d)
    }

    /// Which answers the hosted services give to the call `code` with
    /// `data`: `a` for the service named `name` where its `transact_with`,
    /// called on it as it stands with these bytes and no handles, may return
    /// `a`.
    pub open spec fn hosted_answers(&self, code: u32, data: Seq<u8>) -> spec_fn(Seq<char>, Result<Answer, String>) -> bool {
        |name: Seq<char>, a: Result<Answer, String>|
            exists|o: &mut T, d: &[u8], none: &[u32]|
                #[trigger] call_ensures(T::transact_with, (o, code, d, none), a) && d@ == data && none@.len() == 0
                    && mut_ref_current(o) == self.hosted_object(name)
    }

    /// The broker's invariant: every table is sound, and every connection id
    /// was handed out already.
    pub closed spec fn wf(&self) -> bool {
        &&& self.hosted.wf()
        &&& self.next_client >= 1
        &&& forall|c: ClientId| #[trigger] self.clients@.contains_key(c) ==> c < self.next_client
            && self.clients@[c].table.wf()
    }

    /// A broker with no connections and nothing hosted.
    pub fn new() -> (b: Self)
        ensures
            b.wf(),
            b.nodes() == Map::<u64, NodeRecord>::empty(),
            b.clients() == Map::<ClientId, ClientRecord>::empty(),
            b.next_client() == 1,
            b.next_hosted() == HOSTED_NODE_BASE,
            b.hosted() == Set::<Seq<char>>::empty(),
    {
        BinderBroker {
            hosted: ServiceRegistry::new(),
            nodes: HashMap::new(),
            clients: HashMap::new(),
            next_client: 1,
            next_hosted_node: HOSTED_NODE_BASE,
        }
    }

    /// Host an object in the broker, so every process can reach it. Returns the
    /// node it is exported as, which is what a name resolves to.
    pub fn host(&mut self, name: &str, object: T) -> (node: u64)
        requires
            old(self).wf(),
            old(self).next_hosted() < u64::MAX,
        ensures
            final(self).wf(),
            node == old(self).next_hosted(),
            final(self).next_hosted() == node + 1,
            put_node(old(self).nodes(), final(self).nodes(), node, SERVICE_MANAGER, name@),
            final(self).clients() == old(self).clients(),
            final(self).next_client() == old(self).next_client(),
            final(self).hosted() == old(self).hosted().insert(name@),
    {
        let node = self.next_hosted_node;
        self.next_hosted_node = self.next_hosted_node + 1;
        self.hosted.register(name, object);
        self.nodes.insert(node, NodeRecord { owner: SERVICE_MANAGER, name: Some(name.to_string()) });
        proof {
            assert(self.nodes@.dom() =~= old(self).nodes@.dom().insert(node));
        }
        node
    }

    /// A new connection. The pid is the peer's, from the kernel.
    pub fn connect(&mut self, pid: u32) -> (id: ClientId)
        requires
            old(self).wf(),
            old(self).next_client() < u32::MAX,
        ensures
            final(self).wf(),
            id == old(self).next_client(),
            !old(self).clients().contains_key(id),
            final(self).next_client() == id + 1,
            final(self).clients().dom() == old(self).clients().dom().insert(id),
            final(self).clients()[id].pid == pid,
            final(self).clients()[id].table@ == fresh_table(),
            final(self).clients()[id].links@.len() == 0,
            forall|c: ClientId| #[trigger] old(self).clients().contains_key(c) ==> final(self).clients()[c]
                == old(self).clients()[c],
            final(self).nodes() == old(self).nodes(),
            final(self).next_hosted() == old(self).next_hosted(),
            final(self).hosted() == old(self).hosted(),
    {
        let id = self.next_client;
        self.next_client = self.next_client + 1;
        self.clients.insert(id, ClientRecord { pid, table: HandleTable::new(), links: Vec::new() });
        proof {
            assert(self.clients@.dom() =~= old(self).clients@.dom().insert(id));
        }
        id
    }

    /// Give `client` a handle for `target`, as [`HandleTable::handle_for`]
    /// does, leaving everything else as it was.
    fn take_handle(&mut self, client: ClientId, target: Target) -> (h: u32)
        requires
            old(self).wf(),
            old(self).clients().contains_key(client),
            has_room(old(self).clients()[client].table@),
        ensures
            final(self).wf(),
            final(self).clients().dom() == old(self).clients().dom(),
            took_handle(old(self).clients()[client].table@, final(self).clients()[client].table@, target, h),
            final(self).clients()[client].pid == old(self).clients()[client].pid,
            final(self).clients()[client].links@ == old(self).clients()[client].links@,
            forall|c: ClientId| #[trigger] final(self).clients().contains_key(c) && c != client
                ==> final(self).clients()[c] == old(self).clients()[c],
            final(self).nodes() == old(self).nodes(),
            final(self).next_client() == old(self).next_client(),
            final(self).next_hosted() == old(self).next_hosted(),
            final(self).hosted() == old(self).hosted(),
    {
        let mut record = self.clients.remove(&client).unwrap();
        let h = record.table.handle_for(target);
        self.clients.insert(client, record);
        proof {
            assert(self.clients@.dom() =~= old(self).clients@.dom());
        }
        h
    }

    /// The node published under `name`, and its owner.
    fn node_named(&self, name: &str) -> (r: Option<(u64, ClientId)>)
        ensures
            match r {
                Some((n, o)) => self.nodes().contains_key(n) && named_as(self.nodes()[n], name@) && o
                    == self.nodes()[n].owner,
                None => !name_taken(self.nodes(), name@),
            },
    {
        let ids = node_ids(&self.nodes);
        let mut i: usize = 0;
        while i < ids.len()
            invariant
                i <= ids@.len(),
                ids@.to_set() == self.nodes@.dom(),
                forall|k: int| 0 <= k < i ==> !named_as(self.nodes@[#[trigger] ids@[k]], name@),
            decreases ids@.len() - i,
        {
            assert(ids@.to_set().contains(ids@[i as int]));
            let record = self.nodes.get(&ids[i]).unwrap();
            match &record.name {
                Some(s) => {
                    if same_text(s.as_str(), name) {
                        return Some((ids[i], record.owner));
                    }
                },
                None => {},
            }
            i = i + 1;
        }
        proof {
            assert forall|n: u64| #[trigger] self.nodes@.contains_key(n) implies !named_as(self.nodes@[n], name@) by {
                assert(ids@.to_set().contains(n));
                let k = choose|k: int| 0 <= k < ids@.len() && ids@[k] == n;
            }
        }
        None
    }

    /// What an export does to the broker and answers.
    pub open spec fn export_done(pre: Self, post: Self, client: ClientId, name: Seq<char>, node: u64, r: Result<(), BrokerError>) -> bool {
        &&& (post.next_client() == pre.next_client())
        &&& (post.next_hosted() == pre.next_hosted())
        &&& (post.hosted() == pre.hosted())
        &&& (!pre.clients().contains_key(client) ==> r == Err::<(), BrokerError>(BrokerError::NoClient(client)))
        &&& (pre.clients().contains_key(client) && node_pid(node) != pre.clients()[client].pid ==> r
                    == Err::<(), BrokerError>(BrokerError::NotOwned { node, pid: pre.clients()[client].pid }))
        &&& (pre.clients().contains_key(client) && node_pid(node) == pre.clients()[client].pid
                    && name_taken(pre.nodes(), name) ==> (r matches Err(BrokerError::Registered(n)) && n@ == name))
        &&& (r is Err ==> post.nodes() == pre.nodes() && post.clients() == pre.clients())
        &&& (r is Ok <==> pre.clients().contains_key(client) && node_pid(node) == pre.clients()[client].pid
                    && !name_taken(pre.nodes(), name))
        &&& (r is Ok ==> {
                    &&& put_node(pre.nodes(), post.nodes(), node, client, name)
                    &&& post.clients().dom() == pre.clients().dom()
                    &&& exists|h: u32| took_handle(pre.clients()[client].table@, #[trigger] post.clients()[client].table@, Target::Local(node), h)
                    &&& post.clients()[client].pid == pre.clients()[client].pid
                    &&& post.clients()[client].links@ == pre.clients()[client].links@
                    &&& forall|c: ClientId| #[trigger] post.clients().contains_key(c) && c != client
                        ==> post.clients()[c] == pre.clients()[c]
                })
    }

    /// Publish a name for a node this client owns.
    ///
    /// The node id carries the owner's pid in its high half, which is how a
    /// client is stopped from exporting a node it does not own: the kernel
    /// already told the broker which process this connection is. The owner
    /// takes a handle to its own object, which is what keeps it alive.
    pub fn export(&mut self, client: ClientId, name: &str, node: u64) -> (r: Result<(), BrokerError>)
        requires
            old(self).wf(),
            old(self).clients().contains_key(client) ==> has_room(old(self).clients()[client].table@),
        ensures
            final(self).wf(),
            Self::export_done(*old(self), *final(self), client, name@, node, r),
    {
        let pid = match self.clients.get(&client) {
            Some(record) => record.pid,
            None => { return Err(BrokerError::NoClient(client)); },
        };
        let high = node >> 32;
        assert(high == node / 0x1_0000_0000) by (bit_vector)
            requires high == node >> 32;
        if high != pid as u64 {
            return Err(BrokerError::NotOwned { node, pid });
        }
        if self.node_named(name).is_some() {
            return Err(BrokerError::Registered(name.to_string()));
        }
        self.nodes.insert(node, NodeRecord { owner: client, name: Some(name.to_string()) });
        proof {
            assert(self.nodes@.dom() =~= old(self).nodes@.dom().insert(node));
        }
        self.take_handle(client, Target::Local(node));
        Ok(())
    }

    /// A handle in the caller's table for a name, if the broker knows one:
    /// the handle, the node, and its owner. A process that owns the node
    /// reaches it directly; asking for a name it exported gives back the
    /// object it already has, not a proxy of itself.
    pub fn lookup(&mut self, client: ClientId, name: &str) -> (r: Option<(u32, u64, ClientId)>)
        requires
            old(self).wf(),
            old(self).clients().contains_key(client) ==> has_room(old(self).clients()[client].table@),
        ensures
            final(self).wf(),
            final(self).nodes() == old(self).nodes(),
            final(self).next_client() == old(self).next_client(),
            final(self).next_hosted() == old(self).next_hosted(),
            final(self).hosted() == old(self).hosted(),
            r is Some <==> old(self).clients().contains_key(client) && name_taken(old(self).nodes(), name@),
            r is None ==> final(self).clients() == old(self).clients(),
            match r {
                Some((h, n, o)) => {
                    &&& old(self).nodes().contains_key(n)
                    &&& named_as(old(self).nodes()[n], name@)
                    &&& o == old(self).nodes()[n].owner
                    &&& final(self).clients().dom() == old(self).clients().dom()
                    &&& took_handle(
                        old(self).clients()[client].table@,
                        final(self).clients()[client].table@,
                        if o == client { Target::Local(n) } else { Target::Remote { node: n, owner: o } },
                        h,
                    )
                    &&& final(self).clients()[client].pid == old(self).clients()[client].pid
                    &&& final(self).clients()[client].links@ == old(self).clients()[client].links@
                    &&& forall|c: ClientId| #[trigger] final(self).clients().contains_key(c) && c != client
                        ==> final(self).clients()[c] == old(self).clients()[c]
                },
                None => true,
            },
    {
        let (node, owner) = match self.node_named(name) {
            Some(found) => found,
            None => { return None; },
        };
        if !self.clients.contains_key(&client) {
            return None;
        }
        let target = if owner == client {
            Target::Local(node)
        } else {
            Target::Remote { node, owner }
        };
        let handle = self.take_handle(client, target);
        Some((handle, node, owner))
    }

    /// Every published name, in name order.
    pub fn names(&self) -> (r: Vec<String>)
        ensures
            names_in_order(r@.map_values(|s: String| s@)),
            forall|s: Seq<char>| #[trigger] texts(r@).contains(s) <==> name_taken(self.nodes(), s),
    {
        let ids = node_ids(&self.nodes);
        let mut all: Vec<String> = Vec::new();
        let mut i: usize = 0;
        while i < ids.len()
            invariant
                i <= ids@.len(),
                ids@.to_set() == self.nodes@.dom(),
                forall|s: Seq<char>| #[trigger] texts(all@).contains(s) <==> exists|k: int|
                    0 <= k < i && named_as(self.nodes@[#[trigger] ids@[k]], s),
            decreases ids@.len() - i,
        {
            assert(ids@.to_set().contains(ids@[i as int]));
            let record = self.nodes.get(&ids[i]).unwrap();
            let ghost prev = texts(all@);
            match &record.name {
                Some(s) => {
                    all.push(s.clone());
                },
                None => {},
            }
            proof {
                let now = texts(all@);
                assert forall|s: Seq<char>| #[trigger] now.contains(s) <==> exists|k: int|
                    0 <= k < i + 1 && named_as(self.nodes@[#[trigger] ids@[k]], s) by {
                    if now.contains(s) {
                        let j = choose|j: int| 0 <= j < now.len() && now[j] == s;
                        if j < prev.len() {
                            assert(prev[j] == now[j]);
                            assert(prev.contains(s));
                        } else {
                            assert(named_as(self.nodes@[ids@[i as int]], s));
                        }
                    }
                    if exists|k: int| 0 <= k < i + 1 && named_as(self.nodes@[#[trigger] ids@[k]], s) {
                        let k = choose|k: int| 0 <= k < i + 1 && named_as(self.nodes@[#[trigger] ids@[k]], s);
                        if k < i {
                            assert(prev.contains(s));
                            let j = choose|j: int| 0 <= j < prev.len() && prev[j] == s;
                            assert(now[j] == s);
                        } else {
                            assert(now[now.len() - 1] == s);
                        }
                    }
                }
            }
            i = i + 1;
        }
        let r = sort_names(all);
        proof {
            let rv = texts(r@);
            let av = texts(all@);
            assert forall|s: Seq<char>| #[trigger] rv.contains(s) <==> name_taken(self.nodes@, s) by {
                vstd::seq_lib::to_multiset_contains(rv, s);
                vstd::seq_lib::to_multiset_contains(av, s);
                rv.to_multiset_ensures();
                av.to_multiset_ensures();
                if name_taken(self.nodes@, s) {
                    let n = choose|n: u64| #[trigger] self.nodes@.contains_key(n) && named_as(self.nodes@[n], s);
                    assert(ids@.to_set().contains(n));
                    let k = choose|k: int| 0 <= k < ids@.len() && ids@[k] == n;
                    assert(named_as(self.nodes@[ids@[k]], s));
                }
                if av.contains(s) {
                    let k = choose|k: int| 0 <= k < ids@.len() && named_as(self.nodes@[#[trigger] ids@[k]], s);
                    assert(ids@.to_set().contains(ids@[k]));
                }
            }
        }
        r
    }

    /// Resolve and dispatch. `data` is the parcel; the broker only passes it
    /// along or hands it to a hosted object.
    pub fn transact(&mut self, client: ClientId, handle: u32, code: u32, flags: u32, data: Vec<u8>) -> (r: Result<Dispatch, BrokerError>)
        requires
            old(self).wf(),
        ensures
            final(self).wf(),
            final(self).nodes() == old(self).nodes(),
            final(self).clients() == old(self).clients(),
            final(self).next_client() == old(self).next_client(),
            final(self).next_hosted() == old(self).next_hosted(),
            final(self).hosted() == old(self).hosted(),
            !old(self).clients().contains_key(client) ==> r == Err::<Dispatch, BrokerError>(BrokerError::NoClient(client)),
            old(self).clients().contains_key(client) && !old(self).clients()[client].table@.contains_key(handle) ==> r
                == Err::<Dispatch, BrokerError>(BrokerError::NoHandleIn { handle, client }),
            old(self).clients().contains_key(client) && old(self).clients()[client].table@.contains_key(handle) ==> match old(self).clients()[client].table@[handle].target {
                Target::Local(n) => r matches Ok(Dispatch::Local { node }) && node == n,
                Target::ServiceManager => r == Err::<Dispatch, BrokerError>(BrokerError::ServiceManager),
                Target::Remote { node: n, owner: o } => if o == SERVICE_MANAGER {
                    r is Ok && hosted_answer(old(self).nodes(), old(self).hosted(), old(self).hosted_answers(code, data@), old(self).hosted_descriptors(), n, code, r->Ok_0)
                } else {
                    r matches Ok(Dispatch::Forward { owner, node, code: c, flags: f, data: d })
                        && owner == o && node == n && c == code && f == flags && d@ == data@
                },
            },
    {
        let target = match self.clients.get(&client) {
            None => { return Err(BrokerError::NoClient(client)); },
            Some(record) => match record.table.target(handle) {
                None => { return Err(BrokerError::NoHandleIn { handle, client }); },
                Some(t) => t,
            },
        };
        match target {
            Target::Local(node) => Ok(Dispatch::Local { node }),
            Target::ServiceManager => Err(BrokerError::ServiceManager),
            Target::Remote { node, owner } => {
                if owner == SERVICE_MANAGER {
                    Ok(self.hosted_reply(node, code, data.as_slice()))
                } else {
                    Ok(Dispatch::Forward { owner, node, code, flags, data })
                }
            },
        }
    }

    /// A transaction to an object the broker itself hosts.
    fn hosted_reply(&mut self, node: u64, code: u32, data: &[u8]) -> (d: Dispatch)
        requires
            old(self).wf(),
        ensures
            final(self).wf(),
            final(self).nodes() == old(self).nodes(),
            final(self).clients() == old(self).clients(),
            final(self).next_client() == old(self).next_client(),
            final(self).next_hosted() == old(self).next_hosted(),
            final(self).hosted() == old(self).hosted(),
            hosted_answer(old(self).nodes(), old(self).hosted(), old(self).hosted_answers(code, data@), old(self).hosted_descriptors(), node, code, d),
    {
        let name = match self.nodes.get(&node) {
            Some(entry) => match &entry.name {
                Some(s) => Some(s.clone()),
                None => None,
            },
            None => None,
        };
        match name {
            Some(name) => {
                let answer = self.hosted.transact(name.as_str(), code, data);
                let d = reply_of(answer);
                d
            },
            None => {
                let mut bytes: Vec<u8> = Vec::new();
                push_bytes(&mut bytes, "no such object".as_bytes());
                Dispatch::Reply { status: -1, data: bytes }
            },
        }
    }

    /// The nodes `client` owns.
    fn owned_nodes(&self, client: ClientId) -> (r: Vec<u64>)
        ensures
            forall|n: u64| #[trigger] r@.contains(n) <==> self.nodes().contains_key(n) && self.nodes()[n].owner == client,
            r@.no_duplicates(),
    {
        let ids = node_ids(&self.nodes);
        let mut out: Vec<u64> = Vec::new();
        let mut i: usize = 0;
        while i < ids.len()
            invariant
                i <= ids@.len(),
                ids@.to_set() == self.nodes@.dom(),
                ids@.no_duplicates(),
                out@.no_duplicates(),
                forall|n: u64| #[trigger] out@.contains(n) <==> exists|k: int| 0 <= k < i && ids@[k] == n
                    && self.nodes@[n].owner == client,
            decreases ids@.len() - i,
        {
            let n = ids[i];
            assert(ids@.to_set().contains(n));
            let owner = self.nodes.get(&n).unwrap().owner;
            let ghost prev = out@;
            if owner == client {
                out.push(n);
                proof {
                    assert forall|a: int, b: int| 0 <= a < b < out@.len() implies out@[a] != out@[b] by {
                        if b == out@.len() - 1 && out@[a] == n {
                            assert(prev.contains(n));
                            let k = choose|k: int| 0 <= k < i && ids@[k] == n && self.nodes@[n].owner == client;
                        }
                    }
                }
            }
            proof {
                assert forall|x: u64| #[trigger] out@.contains(x) <==> exists|k: int| 0 <= k < i + 1 && ids@[k] == x
                    && self.nodes@[x].owner == client by {
                    if out@.contains(x) && !prev.contains(x) {
                        let j = choose|j: int| 0 <= j < out@.len() && out@[j] == x;
                        assert(j == prev.len());
                    }
                    if exists|k: int| 0 <= k < i + 1 && ids@[k] == x && self.nodes@[x].owner == client {
                        let k = choose|k: int| 0 <= k < i + 1 && ids@[k] == x && self.nodes@[x].owner == client;
                        if k == i {
                            assert(out@[out@.len() - 1] == x);
                        } else {
                            assert(prev.contains(x));
                            let j = choose|j: int| 0 <= j < prev.len() && prev[j] == x;
                            assert(out@[j] == x);
                        }
                    }
                }
            }
            i = i + 1;
        }
        proof {
            assert forall|n: u64| #[trigger] out@.contains(n) <==> self.nodes@.contains_key(n) && self.nodes@[n].owner == client by {
                if self.nodes@.contains_key(n) && self.nodes@[n].owner == client {
                    assert(ids@.to_set().contains(n));
                    let k = choose|k: int| 0 <= k < ids@.len() && ids@[k] == n;
                }
                if out@.contains(n) {
                    let k = choose|k: int| 0 <= k < ids@.len() && ids@[k] == n && self.nodes@[n].owner == client;
                    assert(ids@.to_set().contains(n));
                }
            }
        }
        out
    }

    /// A connection went away.
    ///
    /// Every handle anyone held to a node this process owned stops resolving,
    /// and whoever asked to hear about it gets a notice. That is the case
    /// reference counting exists for: a process can disappear at any moment.
    pub fn disconnect(&mut self, client: ClientId) -> (r: Vec<DeathNotice>)
        requires
            old(self).wf(),
        ensures
            final(self).wf(),
            final(self).next_client() == old(self).next_client(),
            final(self).next_hosted() == old(self).next_hosted(),
            final(self).hosted() == old(self).hosted(),
            forall|n: u64| #[trigger] final(self).nodes().contains_key(n) <==> old(self).nodes().contains_key(n)
                && old(self).nodes()[n].owner != client,
            forall|n: u64| #[trigger] final(self).nodes().contains_key(n) ==> final(self).nodes()[n] == old(self).nodes()[n],
            final(self).clients().dom() == old(self).clients().dom().remove(client),
            forall|h: ClientId| #[trigger] final(self).clients().contains_key(h) ==> if affected(
                old(self).nodes(),
                old(self).clients(),
                client,
                h,
            ) {
                &&& final(self).clients()[h].pid == old(self).clients()[h].pid
                &&& final(self).clients()[h].table@ == table_without_owner(old(self).clients()[h].table@, client)
                &&& final(self).clients()[h].links@ == links_without_owner(old(self).clients()[h].links@, client)
            } else {
                final(self).clients()[h] == old(self).clients()[h]
            },
            forall|i: int| 0 <= i < r@.len() ==> owed_notice(old(self).nodes(), old(self).clients(), client, #[trigger] r@[i]),
            forall|n: DeathNotice| #[trigger] owed_notice(old(self).nodes(), old(self).clients(), client, n) ==> r@.contains(n),
            r@.no_duplicates(),
    {
        let ghost nodes0 = self.nodes@;
        let ghost clients0 = self.clients@;
        let owned = self.owned_nodes(client);
        let ids = client_ids(&self.clients);
        let mut notices: Vec<DeathNotice> = Vec::new();
        let mut i: usize = 0;
        while i < ids.len()
            invariant
                i <= ids@.len(),
                ids@.to_set() == clients0.dom(),
                ids@.no_duplicates(),
                self.nodes@ == nodes0,
                self.hosted.wf(),
                self.next_client >= 1,
                forall|c: ClientId| #[trigger] self.clients@.contains_key(c) ==> c < self.next_client
                    && self.clients@[c].table.wf(),
                self.next_client == old(self).next_client,
                self.next_hosted_node == old(self).next_hosted_node,
                self.hosted.registered() == old(self).hosted.registered(),
                nodes0 == old(self).nodes@,
                clients0 == old(self).clients@,
                forall|n: u64| #[trigger] owned@.contains(n) <==> nodes0.contains_key(n) && nodes0[n].owner == client,
                self.clients@.dom() == clients0.dom(),
                forall|h: ClientId| #[trigger] self.clients@.contains_key(h) ==> if affected(nodes0, clients0, client, h)
                    && exists|k: int| 0 <= k < i && ids@[k] == h {
                    &&& self.clients@[h].pid == clients0[h].pid
                    &&& self.clients@[h].table@ == table_without_owner(clients0[h].table@, client)
                    &&& self.clients@[h].links@ == links_without_owner(clients0[h].links@, client)
                } else {
                    self.clients@[h] == clients0[h]
                },
                forall|j: int| 0 <= j < notices@.len() ==> owed_notice(nodes0, clients0, client, #[trigger] notices@[j])
                    && exists|k: int| 0 <= k < i && ids@[k] == notices@[j].client,
                forall|n: DeathNotice| #[trigger] owed_notice(nodes0, clients0, client, n) && (exists|k: int| 0 <= k < i
                    && ids@[k] == n.client) ==> notices@.contains(n),
                notices@.no_duplicates(),
            decreases ids@.len() - i,
        {
            let h = ids[i];
            assert(ids@.to_set().contains(h));
            proof {
                assert(!(exists|k: int| 0 <= k < i && ids@[k] == h)) by {
                    if exists|k: int| 0 <= k < i && ids@[k] == h {
                        let k = choose|k: int| 0 <= k < i && ids@[k] == h;
                        assert(ids@[k] == ids@[i as int]);
                    }
                }
                assert(self.clients@[h] == clients0[h]);
            }
            let concerned = h != client && holds_any(&self.clients.get(&h).unwrap().table, &owned);
            proof {
                if concerned {
                    let k = choose|k: int| 0 <= k < owned@.len() && holds(clients0[h].table@, #[trigger] owned@[k]);
                    assert(owned@.contains(owned@[k]));
                    assert(affected(nodes0, clients0, client, h));
                } else if h != client {
                    assert forall|n: u64| #[trigger] nodes0.contains_key(n) && nodes0[n].owner == client implies !holds(clients0[h].table@, n) by {
                        assert(owned@.contains(n));
                        let k = choose|k: int| 0 <= k < owned@.len() && owned@[k] == n;
                    }
                }
            }
            let ghost before = notices@;
            if concerned {
                let record = self.clients.remove(&h).unwrap();
                let asked = links_name(&record.links, client);
                let mut table = record.table;
                let dropped = table.drop_owner(client);
                if asked {
                    let mut j: usize = 0;
                    while j < dropped.len()
                        invariant
                            j <= dropped@.len(),
                            forall|a: int, b: int| 0 <= a < b < dropped@.len() ==> (#[trigger] dropped@[a]).0 != (#[trigger] dropped@[b]).0,
                            forall|a: int| 0 <= a < dropped@.len() ==> clients0[h].table@.contains_key((#[trigger] dropped@[a]).0)
                                && owned_by(clients0[h].table@[dropped@[a].0].target, client),
                            notices@.len() == before.len() + j,
                            forall|a: int| 0 <= a < before.len() ==> notices@[a] == before[a],
                            forall|a: int| 0 <= a < j ==> #[trigger] notices@[before.len() + a] == (DeathNotice { client: h, handle: dropped@[a].0 }),
                        decreases dropped@.len() - j,
                    {
                        notices.push(DeathNotice { client: h, handle: dropped[j].0 });
                        j = j + 1;
                    }
                }
                proof {
                    assert(notices@.len() == before.len() + if asked { dropped@.len() } else { 0 });
                    assert forall|a: int| before.len() <= a < notices@.len() implies #[trigger] notices@[a] == (DeathNotice {
                        client: h,
                        handle: dropped@[a - before.len()].0,
                    }) by {
                        let t = a - before.len();
                        assert(notices@[before.len() + t] == (DeathNotice { client: h, handle: dropped@[t].0 }));
                    }
                    assert forall|a: int| 0 <= a < before.len() implies #[trigger] notices@[a] == before[a] by {}
                }
                let links = retain_other_owners(&record.links, client);
                self.clients.insert(h, ClientRecord { pid: record.pid, table, links });
                proof {
                    assert(self.clients@.dom() =~= clients0.dom());
                    assert(table@ =~= table_without_owner(clients0[h].table@, client));
                    assert forall|x: DeathNotice| #[trigger] owed_notice(nodes0, clients0, client, x) && x.client == h ==> notices@.contains(x) by {
                        if owed_notice(nodes0, clients0, client, x) && x.client == h {
                            let o = clients0[h].table@[x.handle].target;
                            let a = choose|a: int| 0 <= a < dropped@.len() && (#[trigger] dropped@[a]).0 == x.handle;
                            assert(asked);
                            assert(notices@[before.len() + a] == x);
                        }
                    }
                    assert forall|a: int, b: int| 0 <= a < b < notices@.len() implies notices@[a] != notices@[b] by {
                        if b >= before.len() && a < before.len() {
                            let k = choose|k: int| 0 <= k < i && ids@[k] == before[a].client;
                            assert(ids@[k] != ids@[i as int]);
                            assert(notices@[b] == (DeathNotice { client: h, handle: dropped@[b - before.len()].0 }));
                        } else if a >= before.len() {
                            assert(notices@[a] == (DeathNotice { client: h, handle: dropped@[a - before.len()].0 }));
                            assert(notices@[b] == (DeathNotice { client: h, handle: dropped@[b - before.len()].0 }));
                        }
                    }
                    assert forall|j: int| 0 <= j < notices@.len() implies owed_notice(nodes0, clients0, client, #[trigger] notices@[j])
                        && exists|k: int| 0 <= k < i + 1 && ids@[k] == notices@[j].client by {
                        if j >= before.len() {
                            assert(notices@[j] == (DeathNotice { client: h, handle: dropped@[j - before.len()].0 }));
                            assert(ids@[i as int] == h);
                        } else {
                            assert(notices@[j] == before[j]);
                        }
                    }
                }
            } else {
                proof {
                    assert forall|x: DeathNotice| #[trigger] owed_notice(nodes0, clients0, client, x) implies x.client != h by {}
                }
            }
            proof {
                assert forall|x: DeathNotice| #[trigger] owed_notice(nodes0, clients0, client, x) && (exists|k: int| 0 <= k < i + 1
                    && ids@[k] == x.client) implies notices@.contains(x) by {
                    let k = choose|k: int| 0 <= k < i + 1 && ids@[k] == x.client;
                    if k < i {
                        assert(before.contains(x));
                        let a = choose|a: int| 0 <= a < before.len() && before[a] == x;
                        assert(notices@[a] == x);
                    }
                }
                assert forall|c: ClientId| #[trigger] self.clients@.contains_key(c) implies (if affected(nodes0, clients0, client, c)
                    && exists|k: int| 0 <= k < i + 1 && ids@[k] == c {
                    &&& self.clients@[c].pid == clients0[c].pid
                    &&& self.clients@[c].table@ == table_without_owner(clients0[c].table@, client)
                    &&& self.clients@[c].links@ == links_without_owner(clients0[c].links@, client)
                } else {
                    self.clients@[c] == clients0[c]
                }) by {
                    if c != h {
                        if exists|k: int| 0 <= k < i + 1 && ids@[k] == c {
                            let k = choose|k: int| 0 <= k < i + 1 && ids@[k] == c;
                            assert(k != i);
                        }
                    }
                }
            }
            i = i + 1;
        }
        let ghost clients1 = self.clients@;
        let mut j: usize = 0;
        while j < owned.len()
            invariant
                j <= owned@.len(),
                self.clients@ == clients1,
                self.hosted.wf(),
                self.next_client >= 1,
                forall|c: ClientId| #[trigger] self.clients@.contains_key(c) ==> c < self.next_client
                    && self.clients@[c].table.wf(),
                self.next_client == old(self).next_client,
                self.next_hosted_node == old(self).next_hosted_node,
                self.hosted.registered() == old(self).hosted.registered(),
                owned@.no_duplicates(),
                forall|n: u64| #[trigger] owned@.contains(n) <==> nodes0.contains_key(n) && nodes0[n].owner == client,
                forall|n: u64| #[trigger] self.nodes@.contains_key(n) <==> nodes0.contains_key(n) && !(exists|k: int| 0 <= k < j && owned@[k] == n),
                forall|n: u64| #[trigger] self.nodes@.contains_key(n) ==> self.nodes@[n] == nodes0[n],
            decreases owned@.len() - j,
        {
            self.nodes.remove(&owned[j]);
            j = j + 1;
        }
        self.clients.remove(&client);
        proof {
            assert forall|n: u64| #[trigger] self.nodes@.contains_key(n) <==> nodes0.contains_key(n) && nodes0[n].owner != client by {
                if nodes0.contains_key(n) && nodes0[n].owner == client {
                    assert(owned@.contains(n));
                    let k = choose|k: int| 0 <= k < owned@.len() && owned@[k] == n;
                }
                if exists|k: int| 0 <= k < j && owned@[k] == n {
                    let k = choose|k: int| 0 <= k < j && owned@[k] == n;
                    assert(owned@.contains(n));
                }
            }
            assert(self.clients@.dom() =~= clients0.dom().remove(client));
            assert forall|h: ClientId| #[trigger] self.clients@.contains_key(h) implies (if affected(nodes0, clients0, client, h) {
                &&& self.clients@[h].pid == clients0[h].pid
                &&& self.clients@[h].table@ == table_without_owner(clients0[h].table@, client)
                &&& self.clients@[h].links@ == links_without_owner(clients0[h].links@, client)
            } else {
                self.clients@[h] == clients0[h]
            }) by {
                if affected(nodes0, clients0, client, h) {
                    assert(ids@.to_set().contains(h));
                    let k = choose|k: int| 0 <= k < ids@.len() && ids@[k] == h;
                }
            }
            assert forall|x: DeathNotice| #[trigger] owed_notice(nodes0, clients0, client, x) implies notices@.contains(x) by {
                assert(ids@.to_set().contains(x.client));
                let k = choose|k: int| 0 <= k < ids@.len() && ids@[k] == x.client;
            }
        }
        notices
    }

    /// Every client whose table holds a handle to this node.
    fn holders_of(&self, node: u64) -> (r: Vec<ClientId>)
        ensures
            forall|c: ClientId| #[trigger] r@.contains(c) <==> self.clients().contains_key(c) && holds(
                self.clients()[c].table@,
                node,
            ),
            r@.no_duplicates(),
    {
        let ids = client_ids(&self.clients);
        let mut out: Vec<ClientId> = Vec::new();
        let mut i: usize = 0;
        while i < ids.len()
            invariant
                i <= ids@.len(),
                ids@.to_set() == self.clients@.dom(),
                ids@.no_duplicates(),
                out@.no_duplicates(),
                forall|c: ClientId| #[trigger] out@.contains(c) <==> exists|k: int| 0 <= k < i && ids@[k] == c
                    && holds(self.clients@[c].table@, node),
            decreases ids@.len() - i,
        {
            let c = ids[i];
            assert(ids@.to_set().contains(c));
            let record = self.clients.get(&c).unwrap();
            let ghost prev = out@;
            if table_holds(&record.table, node) {
                out.push(c);
                proof {
                    assert forall|a: int, b: int| 0 <= a < b < out@.len() implies out@[a] != out@[b] by {
                        if b == out@.len() - 1 {
                            if out@[a] == c {
                                assert(prev.contains(c));
                                let k = choose|k: int| 0 <= k < i && ids@[k] == c && holds(self.clients@[c].table@, node);
                            }
                        }
                    }
                }
            }
            proof {
                assert forall|x: ClientId| #[trigger] out@.contains(x) <==> exists|k: int| 0 <= k < i + 1 && ids@[k] == x
                    && holds(self.clients@[x].table@, node) by {
                    if out@.contains(x) && !prev.contains(x) {
                        let j = choose|j: int| 0 <= j < out@.len() && out@[j] == x;
                        assert(j == prev.len());
                        assert(ids@[i as int] == x);
                    }
                    if exists|k: int| 0 <= k < i + 1 && ids@[k] == x && holds(self.clients@[x].table@, node) {
                        let k = choose|k: int| 0 <= k < i + 1 && ids@[k] == x && holds(self.clients@[x].table@, node);
                        if k == i {
                            assert(out@[out@.len() - 1] == x);
                        } else {
                            assert(prev.contains(x));
                            let j = choose|j: int| 0 <= j < prev.len() && prev[j] == x;
                            assert(out@[j] == x);
                        }
                    }
                }
            }
            i = i + 1;
        }
        proof {
            assert forall|c: ClientId| #[trigger] out@.contains(c) <==> self.clients@.contains_key(c) && holds(
                self.clients@[c].table@,
                node,
            ) by {
                if self.clients@.contains_key(c) && holds(self.clients@[c].table@, node) {
                    assert(ids@.to_set().contains(c));
                    let k = choose|k: int| 0 <= k < ids@.len() && ids@[k] == c;
                }
                if out@.contains(c) {
                    let k = choose|k: int| 0 <= k < ids@.len() && ids@[k] == c && holds(self.clients@[c].table@, node);
                    assert(ids@.to_set().contains(c));
                }
            }
        }
        out
    }

    /// Drop a node nobody can reach any more. A hosted node is the broker's,
    /// and stays until the broker says otherwise.
    fn collect(&mut self, node: u64)
        requires
            old(self).wf(),
        ensures
            final(self).wf(),
            final(self).nodes() == collected(old(self).nodes(), old(self).clients(), node),
            final(self).clients() == old(self).clients(),
            final(self).next_client() == old(self).next_client(),
            final(self).next_hosted() == old(self).next_hosted(),
            final(self).hosted() == old(self).hosted(),
    {
        let owner = match self.nodes.get(&node) {
            None => { return; },
            Some(entry) => entry.owner,
        };
        if owner == SERVICE_MANAGER {
            return;
        }
        let holders = self.holders_of(node);
        if holders.len() == 0 {
            proof {
                assert forall|c: ClientId| #[trigger] self.clients@.contains_key(c) implies !holds(self.clients@[c].table@, node) by {
                    assert(!holders@.contains(c));
                }
            }
            self.nodes.remove(&node);
        } else {
            proof {
                let c = holders@[0];
                assert(holders@.contains(c));
                assert(self.clients@.contains_key(c) && holds(self.clients@[c].table@, node));
                assert(held(old(self).clients@, node));
            }
        }
    }

    /// What taking a weak reference does to the broker and answers.
    pub open spec fn inc_refs_done(pre: Self, post: Self, client: ClientId, handle: u32, r: Result<(), BrokerError>) -> bool {
        &&& (post.nodes() == pre.nodes())
        &&& (post.next_client() == pre.next_client())
        &&& (post.next_hosted() == pre.next_hosted())
        &&& (post.hosted() == pre.hosted())
        &&& (post.clients().dom() == pre.clients().dom())
        &&& (forall|c: ClientId| #[trigger] post.clients().contains_key(c) && c != client
                    ==> post.clients()[c] == pre.clients()[c])
        &&& (!pre.clients().contains_key(client) ==> r == Err::<(), BrokerError>(BrokerError::NoClient(client)))
        &&& (pre.clients().contains_key(client) ==> {
                    let before = pre.clients()[client].table@;
                    &&& post.clients()[client].pid == pre.clients()[client].pid
                    &&& post.clients()[client].links@ == pre.clients()[client].links@
                    &&& !before.contains_key(handle) ==> r == Err::<(), BrokerError>(BrokerError::NoHandle(handle))
                        && post.clients()[client].table@ == before
                    &&& before.contains_key(handle) ==> r is Ok && post.clients()[client].table@
                        == before.insert(handle, Entry { weak: (before[handle].weak + 1) as u32, ..before[handle] })
                })
    }

    /// A weak reference taken by a client.
    pub fn inc_refs(&mut self, client: ClientId, handle: u32) -> (r: Result<(), BrokerError>)
        requires
            old(self).wf(),
            old(self).clients().contains_key(client) ==> has_room(old(self).clients()[client].table@),
        ensures
            final(self).wf(),
            Self::inc_refs_done(*old(self), *final(self), client, handle, r),
    {
        let mut record = match self.clients.remove(&client) {
            None => {
                proof {
                    assert(self.clients@ =~= old(self).clients@);
                }
                return Err(BrokerError::NoClient(client));
            },
            Some(record) => record,
        };
        let r = record.table.inc_refs(handle);
        self.clients.insert(client, record);
        proof {
            assert(self.clients@.dom() =~= old(self).clients@.dom());
        }
        match r {
            Ok(()) => Ok(()),
            Err(_) => Err(BrokerError::NoHandle(handle)),
        }
    }

    /// What taking a strong reference does to the broker and answers.
    pub open spec fn acquire_done(pre: Self, post: Self, client: ClientId, handle: u32, r: Result<(), BrokerError>) -> bool {
        &&& (post.nodes() == pre.nodes())
        &&& (post.next_client() == pre.next_client())
        &&& (post.next_hosted() == pre.next_hosted())
        &&& (post.hosted() == pre.hosted())
        &&& (post.clients().dom() == pre.clients().dom())
        &&& (forall|c: ClientId| #[trigger] post.clients().contains_key(c) && c != client
                    ==> post.clients()[c] == pre.clients()[c])
        &&& (!pre.clients().contains_key(client) ==> r == Err::<(), BrokerError>(BrokerError::NoClient(client)))
        &&& (pre.clients().contains_key(client) ==> {
                    let before = pre.clients()[client].table@;
                    &&& post.clients()[client].pid == pre.clients()[client].pid
                    &&& post.clients()[client].links@ == pre.clients()[client].links@
                    &&& !before.contains_key(handle) ==> r == Err::<(), BrokerError>(BrokerError::NoHandle(handle))
                        && post.clients()[client].table@ == before
                    &&& before.contains_key(handle) ==> r is Ok && post.clients()[client].table@
                        == before.insert(handle, Entry { strong: (before[handle].strong + 1) as u32, ..before[handle] })
                })
    }

    /// A strong reference taken.
    pub fn acquire(&mut self, client: ClientId, handle: u32) -> (r: Result<(), BrokerError>)
        requires
            old(self).wf(),
            old(self).clients().contains_key(client) ==> has_room(old(self).clients()[client].table@),
        ensures
            final(self).wf(),
            Self::acquire_done(*old(self), *final(self), client, handle, r),
    {
        let mut record = match self.clients.remove(&client) {
            None => {
                proof {
                    assert(self.clients@ =~= old(self).clients@);
                }
                return Err(BrokerError::NoClient(client));
            },
            Some(record) => record,
        };
        let r = record.table.acquire(handle);
        self.clients.insert(client, record);
        proof {
            assert(self.clients@.dom() =~= old(self).clients@.dom());
        }
        match r {
            Ok(_) => Ok(()),
            Err(_) => Err(BrokerError::NoHandle(handle)),
        }
    }

    /// What dropping a strong reference does to the broker and answers.
    pub open spec fn release_done(pre: Self, post: Self, client: ClientId, handle: u32, r: Result<Option<u64>, BrokerError>) -> bool {
        &&& (post.next_client() == pre.next_client())
        &&& (post.next_hosted() == pre.next_hosted())
        &&& (post.hosted() == pre.hosted())
        &&& (post.clients().dom() == pre.clients().dom())
        &&& (forall|c: ClientId| #[trigger] post.clients().contains_key(c) && c != client
                    ==> post.clients()[c] == pre.clients()[c])
        &&& (!pre.clients().contains_key(client) ==> r == Err::<Option<u64>, BrokerError>(BrokerError::NoClient(client))
                    && post.nodes() == pre.nodes())
        &&& (pre.clients().contains_key(client) ==> {
                    let before = pre.clients()[client].table@;
                    &&& post.clients()[client].pid == pre.clients()[client].pid
                    &&& post.clients()[client].links@ == pre.clients()[client].links@
                    &&& !before.contains_key(handle) ==> r == Err::<Option<u64>, BrokerError>(BrokerError::NoHandle(handle))
                        && post.clients()[client].table@ == before && post.nodes() == pre.nodes()
                    &&& handle == 0 && before.contains_key(0) ==> r == Ok::<Option<u64>, BrokerError>(None)
                        && post.clients()[client].table@ == before && post.nodes() == pre.nodes()
                    &&& handle != 0 && before.contains_key(handle) && before[handle].strong > 1 ==> r == Ok::<Option<u64>, BrokerError>(None)
                        && post.clients()[client].table@ == before.insert(
                        handle,
                        Entry { strong: (before[handle].strong - 1) as u32, ..before[handle] },
                    ) && post.nodes() == pre.nodes()
                    &&& handle != 0 && before.contains_key(handle) && before[handle].strong <= 1 ==> {
                        &&& post.clients()[client].table@ == before.remove(handle)
                        &&& match before[handle].target {
                            Target::Remote { node, .. } => r == Ok::<Option<u64>, BrokerError>(Some(node))
                                && post.nodes() == collected(pre.nodes(), post.clients(), node),
                            _ => r == Ok::<Option<u64>, BrokerError>(None) && post.nodes() == pre.nodes(),
                        }
                    }
                })
    }

    /// A strong reference dropped. When the last one goes the handle goes,
    /// and a node nobody holds any more goes with it, unless the broker hosts
    /// it: the node is returned when its handle went.
    pub fn release(&mut self, client: ClientId, handle: u32) -> (r: Result<Option<u64>, BrokerError>)
        requires
            old(self).wf(),
        ensures
            final(self).wf(),
            Self::release_done(*old(self), *final(self), client, handle, r),
    {
        let mut record = match self.clients.remove(&client) {
            None => {
                proof {
                    assert(self.clients@ =~= old(self).clients@);
                }
                return Err(BrokerError::NoClient(client));
            },
            Some(record) => record,
        };
        let released = record.table.release(handle);
        self.clients.insert(client, record);
        proof {
            assert(self.clients@.dom() =~= old(self).clients@.dom());
        }
        match released {
            Err(_) => Err(BrokerError::NoHandle(handle)),
            Ok(Released::Counted { .. }) => Ok(None),
            Ok(Released::Dropped(target)) => match target {
                Target::Remote { node, .. } => {
                    self.collect(node);
                    Ok(Some(node))
                },
                _ => Ok(None),
            },
        }
    }

    /// What dropping a weak reference does to the broker and answers.
    pub open spec fn dec_refs_done(pre: Self, post: Self, client: ClientId, handle: u32, r: Result<Option<u64>, BrokerError>) -> bool {
        &&& (post.next_client() == pre.next_client())
        &&& (post.next_hosted() == pre.next_hosted())
        &&& (post.hosted() == pre.hosted())
        &&& (post.clients().dom() == pre.clients().dom())
        &&& (forall|c: ClientId| #[trigger] post.clients().contains_key(c) && c != client
                    ==> post.clients()[c] == pre.clients()[c])
        &&& (!pre.clients().contains_key(client) ==> r == Err::<Option<u64>, BrokerError>(BrokerError::NoClient(client))
                    && post.nodes() == pre.nodes())
        &&& (pre.clients().contains_key(client) ==> {
                    let before = pre.clients()[client].table@;
                    let weak = if before[handle].weak == 0 { 0u32 } else { (before[handle].weak - 1) as u32 };
                    &&& post.clients()[client].pid == pre.clients()[client].pid
                    &&& post.clients()[client].links@ == pre.clients()[client].links@
                    &&& !before.contains_key(handle) ==> r == Err::<Option<u64>, BrokerError>(BrokerError::NoHandle(handle))
                        && post.clients()[client].table@ == before && post.nodes() == pre.nodes()
                    &&& before.contains_key(handle) && (weak > 0 || before[handle].strong > 0) ==> r == Ok::<Option<u64>, BrokerError>(None)
                        && post.clients()[client].table@ == before.insert(handle, Entry { weak, ..before[handle] })
                        && post.nodes() == pre.nodes()
                    &&& before.contains_key(handle) && weak == 0 && before[handle].strong == 0 ==> {
                        &&& post.clients()[client].table@ == before.remove(handle)
                        &&& match before[handle].target {
                            Target::Remote { node, .. } => r == Ok::<Option<u64>, BrokerError>(Some(node))
                                && post.nodes() == collected(pre.nodes(), post.clients(), node),
                            _ => r == Ok::<Option<u64>, BrokerError>(None) && post.nodes() == pre.nodes(),
                        }
                    }
                })
    }

    /// A weak reference dropped.
    pub fn dec_refs(&mut self, client: ClientId, handle: u32) -> (r: Result<Option<u64>, BrokerError>)
        requires
            old(self).wf(),
        ensures
            final(self).wf(),
            Self::dec_refs_done(*old(self), *final(self), client, handle, r),
    {
        let mut record = match self.clients.remove(&client) {
            None => {
                proof {
                    assert(self.clients@ =~= old(self).clients@);
                }
                return Err(BrokerError::NoClient(client));
            },
            Some(record) => record,
        };
        let released = record.table.dec_refs(handle);
        self.clients.insert(client, record);
        proof {
            assert(self.clients@.dom() =~= old(self).clients@.dom());
        }
        match released {
            Err(_) => Err(BrokerError::NoHandle(handle)),
            Ok(Released::Counted { .. }) => Ok(None),
            Ok(Released::Dropped(target)) => match target {
                Target::Remote { node, .. } => {
                    self.collect(node);
                    Ok(Some(node))
                },
                _ => Ok(None),
            },
        }
    }

    /// What asking to hear of a death does to the broker and answers.
    pub open spec fn linked(pre: Self, post: Self, client: ClientId, handle: u32, r: Result<(), BrokerError>) -> bool {
        &&& (post.nodes() == pre.nodes())
        &&& (post.next_client() == pre.next_client())
        &&& (post.next_hosted() == pre.next_hosted())
        &&& (post.hosted() == pre.hosted())
        &&& (post.clients().dom() == pre.clients().dom())
        &&& (forall|c: ClientId| #[trigger] post.clients().contains_key(c) && c != client
                    ==> post.clients()[c] == pre.clients()[c])
        &&& (match (if pre.clients().contains_key(client) && pre.clients()[client].table@.contains_key(handle) {
                    target_owner(pre.clients()[client].table@[handle].target)
                } else {
                    None
                }) {
                    None => r == Err::<(), BrokerError>(BrokerError::NoOwner(handle)) && post.clients() == pre.clients(),
                    Some(owner) => {
                        &&& r is Ok
                        &&& post.clients()[client].pid == pre.clients()[client].pid
                        &&& post.clients()[client].table == pre.clients()[client].table
                        &&& post.clients()[client].links@ == links_without_handle(
                            pre.clients()[client].links@,
                            handle,
                        ).push((handle, owner))
                    },
                })
    }

    /// Ask to be told when the owner of a handle goes away.
    pub fn link_to_death(&mut self, client: ClientId, handle: u32) -> (r: Result<(), BrokerError>)
        requires
            old(self).wf(),
        ensures
            final(self).wf(),
            Self::linked(*old(self), *final(self), client, handle, r),
    {
        let owner = match self.clients.get(&client) {
            None => None,
            Some(record) => match record.table.target(handle) {
                None => None,
                Some(target) => target.owner(),
            },
        };
        let owner = match owner {
            None => { return Err(BrokerError::NoOwner(handle)); },
            Some(owner) => owner,
        };
        let record = self.clients.remove(&client).unwrap();
        let mut links = retain_other_handles(&record.links, handle);
        links.push((handle, owner));
        self.clients.insert(client, ClientRecord { pid: record.pid, table: record.table, links });
        proof {
            assert(self.clients@.dom() =~= old(self).clients@.dom());
        }
        Ok(())
    }

    /// What no longer asking to hear of a death does to the broker and answers.
    pub open spec fn unlinked(pre: Self, post: Self, client: ClientId, handle: u32, r: Result<(), BrokerError>) -> bool {
        &&& (post.nodes() == pre.nodes())
        &&& (post.next_client() == pre.next_client())
        &&& (post.next_hosted() == pre.next_hosted())
        &&& (post.hosted() == pre.hosted())
        &&& (post.clients().dom() == pre.clients().dom())
        &&& (forall|c: ClientId| #[trigger] post.clients().contains_key(c) && c != client
                    ==> post.clients()[c] == pre.clients()[c])
        &&& (!pre.clients().contains_key(client) ==> r == Err::<(), BrokerError>(BrokerError::NoClient(client)))
        &&& (pre.clients().contains_key(client) ==> {
                    &&& r is Ok
                    &&& post.clients()[client].pid == pre.clients()[client].pid
                    &&& post.clients()[client].table == pre.clients()[client].table
                    &&& post.clients()[client].links@ == links_without_handle(pre.clients()[client].links@, handle)
                })
    }

    /// Stop being told about a handle.
    pub fn unlink_to_death(&mut self, client: ClientId, handle: u32) -> (r: Result<(), BrokerError>)
        requires
            old(self).wf(),
        ensures
            final(self).wf(),
            Self::unlinked(*old(self), *final(self), client, handle, r),
    {
        let record = match self.clients.remove(&client) {
            None => {
                proof {
                    assert(self.clients@ =~= old(self).clients@);
                }
                return Err(BrokerError::NoClient(client));
            },
            Some(record) => record,
        };
        let links = retain_other_handles(&record.links, handle);
        self.clients.insert(client, ClientRecord { pid: record.pid, table: record.table, links });
        proof {
            assert(self.clients@.dom() =~= old(self).clients@.dom());
        }
        Ok(())
    }

    /// How `client` reaches `node`: directly when it owns it, through a
    /// proxy otherwise.
    pub open spec fn target_for(&self, client: ClientId, node: u64) -> Target {
        if self.nodes()[node].owner == client {
            Target::Local(node)
        } else {
            Target::Remote { node, owner: self.nodes()[node].owner }
        }
    }

    /// A handle for `node` in `client`'s table, as [`HandleTable::handle_for`]
    /// gives one: the one it has, with one more reference, or a new one.
    /// Nothing when the node or the client is not there.
    pub fn handle_for(&mut self, client: ClientId, node: u64) -> (r: Option<u32>)
        requires
            old(self).wf(),
            old(self).clients().contains_key(client) ==> has_room(old(self).clients()[client].table@),
        ensures
            final(self).wf(),
            final(self).nodes() == old(self).nodes(),
            final(self).next_client() == old(self).next_client(),
            final(self).next_hosted() == old(self).next_hosted(),
            final(self).hosted() == old(self).hosted(),
            final(self).clients().dom() == old(self).clients().dom(),
            r is Some <==> old(self).clients().contains_key(client) && old(self).nodes().contains_key(node),
            r is None ==> final(self).clients() == old(self).clients(),
            match r {
                Some(h) => {
                    &&& took_handle(
                        old(self).clients()[client].table@,
                        final(self).clients()[client].table@,
                        old(self).target_for(client, node),
                        h,
                    )
                    &&& final(self).clients()[client].pid == old(self).clients()[client].pid
                    &&& final(self).clients()[client].links@ == old(self).clients()[client].links@
                    &&& forall|c: ClientId| #[trigger] final(self).clients().contains_key(c) && c != client
                        ==> final(self).clients()[c] == old(self).clients()[c]
                },
                None => true,
            },
    {
        let owner = match self.nodes.get(&node) {
            Some(entry) => entry.owner,
            None => { return None; },
        };
        if !self.clients.contains_key(&client) {
            return None;
        }
        let target = if owner == client {
            Target::Local(node)
        } else {
            Target::Remote { node, owner }
        };
        Some(self.take_handle(client, target))
    }

    /// Whether `client`'s table can take one more handle and one more
    /// reference on each: what the calls that add them require.
    pub fn has_room_for(&self, client: ClientId) -> (r: bool)
        ensures
            r == (self.clients().contains_key(client) ==> has_room(self.clients()[client].table@)),
    {
        let record = match self.clients.get(&client) {
            None => { return true; },
            Some(record) => record,
        };
        if record.table.len() >= 0xffff_ffff {
            return false;
        }
        let all = record.table.handles();
        let mut i: usize = 0;
        while i < all.len()
            invariant
                i <= all@.len(),
                self.clients@.contains_key(client),
                *record == self.clients@[client],
                forall|k: int| 0 <= k < all@.len() ==> record.table@.contains_key((#[trigger] all@[k]).0),
                forall|h: u32| #[trigger] record.table@.contains_key(h) ==> exists|k: int| 0 <= k < all@.len() && (#[trigger] all@[k]).0 == h,
                forall|k: int| 0 <= k < i ==> record.table@[(#[trigger] all@[k]).0].strong < u32::MAX
                    && record.table@[all@[k].0].weak < u32::MAX,
            decreases all@.len() - i,
        {
            let h = all[i].0;
            let strong = record.table.strong(h).unwrap();
            let weak = record.table.weak(h).unwrap();
            if strong == 0xffff_ffff || weak == 0xffff_ffff {
                assert(record.table@.contains_key(h));
                assert(!has_room(record.table@));
                return false;
            }
            i = i + 1;
        }
        proof {
            assert forall|h: u32| #[trigger] record.table@.contains_key(h) implies record.table@[h].strong < u32::MAX
                && record.table@[h].weak < u32::MAX by {
                let k = choose|k: int| 0 <= k < all@.len() && (#[trigger] all@[k]).0 == h;
            }
        }
        true
    }

    /// Whether another connection can be given an id.
    pub fn can_connect(&self) -> (r: bool)
        ensures
            r == (self.next_client() < u32::MAX),
    {
        self.next_client < 0xffff_ffff
    }

    /// Whether another object can be hosted.
    pub fn can_host(&self) -> (r: bool)
        ensures
            r == (self.next_hosted() < u64::MAX),
    {
        self.next_hosted_node < 0xffff_ffff_ffff_ffff
    }

    /// Whether `client`'s table can take `n` more handles and `n` more
    /// references on each: what relaying an answer with `n` objects requires.
    pub fn has_room_for_many(&self, client: ClientId, n: u32) -> (r: bool)
        ensures
            r == (self.clients().contains_key(client) ==> room_for(self.clients()[client].table@, n as nat)),
    {
        let record = match self.clients.get(&client) {
            None => { return true; },
            Some(record) => record,
        };
        if record.table.len() >= 0xffff_ffff || record.table.len() as u64 + n as u64 >= 0xffff_ffff {
            return false;
        }
        let all = record.table.handles();
        let mut i: usize = 0;
        while i < all.len()
            invariant
                i <= all@.len(),
                self.clients@.contains_key(client),
                *record == self.clients@[client],
                forall|k: int| 0 <= k < all@.len() ==> record.table@.contains_key((#[trigger] all@[k]).0),
                forall|h: u32| #[trigger] record.table@.contains_key(h) ==> exists|k: int| 0 <= k < all@.len() && (#[trigger] all@[k]).0 == h,
                forall|k: int| 0 <= k < i ==> record.table@[(#[trigger] all@[k]).0].strong + n < u32::MAX
                    && record.table@[all@[k].0].weak + n < u32::MAX,
            decreases all@.len() - i,
        {
            let h = all[i].0;
            let strong = record.table.strong(h).unwrap();
            let weak = record.table.weak(h).unwrap();
            if strong as u64 + n as u64 >= 0xffff_ffff || weak as u64 + n as u64 >= 0xffff_ffff {
                assert(record.table@.contains_key(h));
                assert(!room_for(record.table@, n as nat));
                return false;
            }
            i = i + 1;
        }
        proof {
            assert forall|h: u32| #[trigger] record.table@.contains_key(h) implies record.table@[h].strong + n < u32::MAX
                && record.table@[h].weak + n < u32::MAX by {
                let k = choose|k: int| 0 <= k < all@.len() && (#[trigger] all@[k]).0 == h;
            }
        }
        true
    }

    /// Whether a node exists and belongs to the process claiming to hold it,
    /// which is what makes a relayed answer trustworthy.
    pub fn accepts(&self, owner: ClientId, node: u64) -> (r: bool)
        ensures
            r == (self.nodes().contains_key(node) && self.nodes()[node].owner == owner),
    {
        match self.nodes.get(&node) {
            Some(entry) => entry.owner == owner,
            None => false,
        }
    }

    /// How many handles a process holds; none for one that is not connected.
    pub fn handle_count(&self, client: ClientId) -> (r: usize)
        ensures
            r == if self.clients().contains_key(client) {
                self.clients()[client].table@.len()
            } else {
                0
            },
    {
        match self.clients.get(&client) {
            Some(record) => record.table.len(),
            None => 0,
        }
    }

    /// How many nodes exist.
    pub fn node_count(&self) -> (r: usize)
        ensures
            r == self.nodes().len(),
    {
        self.nodes.len()
    }

    /// Who owns a node.
    pub fn owner_of(&self, node: u64) -> (r: Option<ClientId>)
        ensures
            r == if self.nodes().contains_key(node) {
                Some(self.nodes()[node].owner)
            } else {
                None::<ClientId>
            },
    {
        match self.nodes.get(&node) {
            Some(entry) => Some(entry.owner),
            None => None,
        }
    }

    /// What a handle means in a given process.
    pub fn target_of(&self, client: ClientId, handle: u32) -> (r: Option<Target>)
        ensures
            r == if self.clients().contains_key(client) && self.clients()[client].table@.contains_key(handle) {
                Some(self.clients()[client].table@[handle].target)
            } else {
                None::<Target>
            },
    {
        match self.clients.get(&client) {
            Some(record) => record.table.target(handle),
            None => None,
        }
    }
}


/// A name published once is found by name: after an export of `name` as
/// `node`, `node` is the one node published under `name`, so a lookup of the
/// name answers with it.
pub proof fn lemma_exported_name_is_found(
    before: Map<u64, NodeRecord>,
    after: Map<u64, NodeRecord>,
    node: u64,
    owner: ClientId,
    name: Seq<char>,
)
    requires
        !name_taken(before, name),
        put_node(before, after, node, owner, name),
    ensures
        name_taken(after, name),
        forall|n: u64| #[trigger] after.contains_key(n) && named_as(after[n], name) ==> n == node,
{
    assert(after.contains_key(node));
    assert forall|n: u64| #[trigger] after.contains_key(n) && named_as(after[n], name) implies n == node by {
        if n != node {
            assert(before.contains_key(n));
            assert(after[n] == before[n]);
        }
    }
}

/// A departed owner's handles stop resolving: after a disconnect, a table the
/// departure concerned holds no handle to anything the departed process owned.
pub proof fn lemma_departed_owner_unreachable(t: Map<u32, Entry>, owner: ClientId, h: u32)
    ensures
        table_without_owner(t, owner).contains_key(h) ==> !owned_by(table_without_owner(t, owner)[h].target, owner),
{
}

/// A hosted service outlives every client: collecting a node never removes a
/// node the broker itself owns, nor changes any other node.
pub proof fn lemma_hosted_never_collected(
    nodes: Map<u64, NodeRecord>,
    clients: Map<ClientId, ClientRecord>,
    node: u64,
    m: u64,
)
    requires
        nodes.contains_key(m),
        nodes[m].owner == SERVICE_MANAGER || m != node,
    ensures
        collected(nodes, clients, node).contains_key(m),
        collected(nodes, clients, node)[m] == nodes[m],
{
}


/// Reaching the same object twice gives the same handle: a process has one
/// handle per object it can reach, so a second `handle_for` for an object
/// answers with the number the first one gave.
pub proof fn lemma_same_object_same_handle(
    t0: Map<u32, Entry>,
    t1: Map<u32, Entry>,
    t2: Map<u32, Entry>,
    target: Target,
    h1: u32,
    h2: u32,
)
    requires
        crate::binder::table::one_handle_per_target(t0),
        took_handle(t0, t1, target, h1),
        took_handle(t1, t2, target, h2),
    ensures
        h1 == h2,
{
    assert(t1.contains_key(h1) && t1[h1].target == target);
    assert(t1.contains_key(h2) && t1[h2].target == target);
    if h1 != h2 {
        // Two handles for one target: the second was already in the first
        // table, which then had the target under it, so the first call took
        // that handle and not a new one.
        assert(t0.contains_key(h2) && t0[h2].target == target);
        assert(t0.contains_key(h1) && t0[h1].target == target);
    }
}

} // verus!
