//! Per-process handle tables and reference counts.
//!
//! One object has a different number in every process that can reach it. A
//! handle means nothing outside the table that issued it, and this is that
//! table.

use std::collections::HashMap;
use vstd::prelude::*;
use vstd::std_specs::iter::IteratorSpec;

use crate::binder::{ClientId, SERVICE_MANAGER};

verus! {

broadcast use vstd::std_specs::hash::group_hash_axioms;

/// Where a handle points.
#[derive(Debug, Clone, Copy, PartialEq, Eq, Structural)]
pub enum Target {
    /// The service manager, which is handle 0 in every process.
    ServiceManager,
    /// An object this process owns. The node is its identity elsewhere.
    Local(u64),
    /// An object another process owns.
    Remote { node: u64, owner: u32 },
}

impl Target {
    /// The node this target names, if it names one.
    pub fn node(&self) -> (r: Option<u64>)
        ensures
            r == match *self {
                Target::ServiceManager => None,
                Target::Local(n) => Some(n),
                Target::Remote { node, .. } => Some(node),
            },
    {
        match self {
            Target::ServiceManager => None,
            Target::Local(node) => Some(*node),
            Target::Remote { node, .. } => Some(*node),
        }
    }

    /// The process that owns it, if it is not this table's own node.
    pub fn owner(&self) -> (r: Option<ClientId>)
        ensures
            r == match *self {
                Target::ServiceManager => Some(SERVICE_MANAGER),
                Target::Local(_) => None,
                Target::Remote { owner, .. } => Some(owner),
            },
    {
        match self {
            Target::ServiceManager => Some(SERVICE_MANAGER),
            Target::Local(_) => None,
            Target::Remote { owner, .. } => Some(*owner),
        }
    }
}

/// What a release did, so the caller knows when a handle stopped being real.
#[derive(Debug, Clone, Copy, PartialEq, Eq, Structural)]
pub enum Released {
    /// References remain.
    Counted { strong: u32 },
    /// The last reference went and the entry is gone.
    Dropped(Target),
}

/// One handle's record: what it names and how many references it carries.
#[derive(Debug, Clone, Copy, PartialEq, Eq, Structural)]
pub struct Entry {
    pub target: Target,
    pub strong: u32,
    pub weak: u32,
}

/// A handle that the table does not hold.
#[derive(Debug, Clone, Copy, PartialEq, Eq)]
pub struct NoHandle {
    pub handle: u32,
}

/// One process's view of the Binder objects it can reach.
pub struct HandleTable {
    entries: HashMap<u32, Entry>,
    next: u32,
}

impl View for HandleTable {
    type V = Map<u32, Entry>;

    closed spec fn view(&self) -> Map<u32, Entry> {
        self.entries@
    }
}

/// The handle after `x` in allocation order: handles count up, wrap, and
/// never come back to 0.
pub open spec fn succ(x: u32) -> u32 {
    if x == u32::MAX {
        1
    } else {
        (x + 1) as u32
    }
}

/// The handle `k` steps after `start` in allocation order.
pub open spec fn cyc(start: u32, k: nat) -> u32
    decreases k,
{
    if k == 0 {
        start
    } else {
        succ(cyc(start, (k - 1) as nat))
    }
}

/// The first handle at or after `start`, in allocation order, that `used`
/// does not hold.
pub open spec fn first_free(used: Set<u32>, start: u32, h: u32) -> bool {
    exists|k: nat|
        #![trigger cyc(start, k)]
        cyc(start, k) == h && !used.contains(h) && forall|j: nat| j < k ==> used.contains(
            #[trigger] cyc(start, j),
        )
}

/// Every live handle holds at least one strong reference: an entry goes
/// with its last one.
pub open spec fn live_entries_held(m: Map<u32, Entry>) -> bool {
    forall|h: u32| #[trigger] m.contains_key(h) ==> m[h].strong >= 1
}

/// No two handles name the same target.
pub open spec fn one_handle_per_target(m: Map<u32, Entry>) -> bool {
    forall|a: u32, b: u32|
        #![trigger m[a], m[b]]
        m.contains_key(a) && m.contains_key(b) && a != b ==> m[a].target != m[b].target
}


/// The step `k` lands on, in closed form.
proof fn lemma_cyc_closed(start: u32, k: nat)
    requires
        start != 0,
    ensures
        cyc(start, k) == ((start - 1 + k) % (u32::MAX as int)) + 1,
    decreases k,
{
    let m = u32::MAX as int;
    if k == 0 {
        vstd::arithmetic::div_mod::lemma_small_mod((start - 1) as nat, m as nat);
    } else {
        lemma_cyc_closed(start, (k - 1) as nat);
        let a = start - 1 + k - 1;
        vstd::arithmetic::div_mod::lemma_add_mod_noop(a, 1, m);
        vstd::arithmetic::div_mod::lemma_small_mod(1, m as nat);
        let r = a % m;
        assert(0 <= r < m);
        if r + 1 == m {
            vstd::arithmetic::div_mod::lemma_mod_self_0(m);
        } else {
            vstd::arithmetic::div_mod::lemma_small_mod((r + 1) as nat, m as nat);
        }
    }
}

/// Fewer than `u32::MAX` steps never visit a handle twice.
proof fn lemma_cyc_distinct(start: u32, i: nat, j: nat)
    requires
        start != 0,
        i < j < u32::MAX,
    ensures
        cyc(start, i) != cyc(start, j),
{
    lemma_cyc_closed(start, i);
    lemma_cyc_closed(start, j);
    let m = u32::MAX as int;
    let a = start - 1 + i;
    let b = start - 1 + j;
    if a % m == b % m {
        vstd::arithmetic::div_mod::lemma_fundamental_div_mod(a, m);
        vstd::arithmetic::div_mod::lemma_fundamental_div_mod(b, m);
        let qa = a / m;
        let qb = b / m;
        assert(m * qb - m * qa == b - a);
        vstd::arithmetic::mul::lemma_mul_is_distributive_sub(m, qb, qa);
        assert(m * (qb - qa) == j - i);
        assert(0 < j - i < m);
        if qb - qa <= 0 {
            assert(false) by (nonlinear_arith)
                requires m > 0, qb - qa <= 0, m * (qb - qa) == j - i, j - i > 0;
        } else {
            assert(m * (qb - qa) >= m) by (nonlinear_arith)
                requires m > 0, qb - qa >= 1;
        }
    }
}

impl HandleTable {
    /// The table's invariant: allocation never starts at 0, each target has
    /// at most one handle, and a live handle holds a strong reference.
    pub closed spec fn wf(&self) -> bool {
        &&& self.next != 0
        &&& one_handle_per_target(self@)
        &&& live_entries_held(self@)
    }

    /// What the invariant gives a caller: one handle per target, and a
    /// strong count of at least one on every live handle.
    pub proof fn lemma_wf_facts(&self)
        requires
            self.wf(),
        ensures
            one_handle_per_target(self@),
            live_entries_held(self@),
    {
    }

    /// A table holds finitely many handles.
    pub proof fn lemma_view_finite(&self)
        ensures
            self@.dom().finite(),
    {
    }

    /// Where the next allocation starts looking.
    pub closed spec fn next_handle(&self) -> u32 {
        self.next
    }

    /// A fresh table. Handle 0 is the service manager.
    pub fn new() -> (t: Self)
        ensures
            t.wf(),
            t@ == map![0u32 => Entry { target: Target::ServiceManager, strong: 1, weak: 1 }],
            t.next_handle() == 1,
    {
        let mut entries = HashMap::new();
        entries.insert(0, Entry { target: Target::ServiceManager, strong: 1, weak: 1 });
        let t = HandleTable { entries, next: 1 };
        assert(t@ =~= map![0u32 => Entry { target: Target::ServiceManager, strong: 1, weak: 1 }]);
        t
    }


    /// The next free number, counting up from where the last allocation
    /// stopped: a released number comes back, and 0 never does.
    fn allocate(&mut self) -> (h: u32)
        requires
            old(self).wf(),
            old(self)@.len() < u32::MAX,
        ensures
            final(self)@ == old(self)@,
            final(self).wf(),
            h != 0,
            !old(self)@.contains_key(h),
            first_free(old(self)@.dom(), old(self).next_handle(), h),
            final(self).next_handle() == succ(h),
    {
        let ghost start = self.next;
        let ghost dom = self@.dom();
        let ghost mut tried: Seq<u32> = Seq::empty();
        loop
            invariant
                self@ == old(self)@,
                self.wf(),
                start == old(self).next_handle(),
                start != 0,
                dom == self@.dom(),
                dom.finite(),
                dom.len() < u32::MAX,
                self.next == cyc(start, tried.len()),
                forall|j: int| 0 <= j < tried.len() ==> #[trigger] tried[j] == cyc(start, j as nat),
                forall|j: int| 0 <= j < tried.len() ==> dom.contains(#[trigger] tried[j]),
                tried.no_duplicates(),
                tried.len() <= dom.len(),
            decreases dom.len() - tried.len(),
        {
            let candidate = self.next;
            self.next = self.next.wrapping_add(1);
            if self.next == 0 {
                self.next = 1;
            }
            proof {
                assert(self.next == succ(candidate));
                assert(tried.len() < u32::MAX);
            }
            if !self.entries.contains_key(&candidate) {
                proof {
                    lemma_cyc_closed(start, tried.len());
                    assert(candidate != 0);
                    let k = tried.len();
                    assert forall|j: nat| j < k implies dom.contains(#[trigger] cyc(start, j)) by {
                        assert(tried[j as int] == cyc(start, j));
                    }
                    assert(cyc(start, k) == candidate);
                }
                return candidate;
            }
            proof {
                let k = tried.len();
                assert forall|j: int| 0 <= j < tried.len() implies tried[j] != candidate by {
                    lemma_cyc_distinct(start, j as nat, k);
                }
                let new_tried = tried.push(candidate);
                assert forall|a: int, b: int| 0 <= a < b < new_tried.len() implies new_tried[a] != new_tried[b] by {
                    if b == k as int {
                        assert(new_tried[a] == tried[a]);
                    } else {
                        assert(new_tried[a] == tried[a] && new_tried[b] == tried[b]);
                    }
                }
                assert(new_tried.no_duplicates());
                new_tried.unique_seq_to_set();
                assert(new_tried.to_set().subset_of(dom)) by {
                    assert forall|x: u32| new_tried.to_set().contains(x) implies dom.contains(x) by {
                        let j = choose|j: int| 0 <= j < new_tried.len() && new_tried[j] == x;
                        if j < k as int {
                            assert(new_tried[j] == tried[j]);
                        }
                    }
                }
                vstd::set_lib::lemma_len_subset(new_tried.to_set(), dom);
                tried = new_tried;
                assert(cyc(start, tried.len()) == succ(candidate));
            }
        }
    }

    /// The handle that names `target`, if there is one.
    pub fn find(&self, target: &Target) -> (r: Option<u32>)
        requires
            self.wf(),
        ensures
            match r {
                Some(h) => self@.contains_key(h) && self@[h].target == *target,
                None => forall|h: u32| #[trigger] self@.contains_key(h) ==> self@[h].target != *target,
            },
    {
        for pair in it: self.entries.iter()
            invariant
                it.seq() == vstd::std_specs::hash::spec_hash_map_iter(&self.entries).remaining(),
                forall|j: int| 0 <= j < it.index() ==> (#[trigger] it.seq()[j]).1.target != *target,
        {
            let (handle, entry) = pair;
            if entry.target == *target {
                return Some(*handle);
            }
        }
        proof {
            let v = vstd::std_specs::hash::spec_hash_map_iter(&self.entries).remaining();
            assert forall|h: u32| #[trigger] self@.contains_key(h) implies self@[h].target != *target by {
                assert(v.contains((&h, &self@[h])));
                let j = choose|j: int| 0 <= j < v.len() && v[j] == (&h, &self@[h]);
                assert(v[j].1.target != *target);
            }
        }
        None
    }

    /// The handle for a target, allocating one if this table has not seen it.
    /// Reaching the same object twice gives the same number and one more
    /// strong reference: a process has one handle per object it can reach.
    pub fn handle_for(&mut self, target: Target) -> (h: u32)
        requires
            old(self).wf(),
            old(self)@.len() < u32::MAX,
            forall|k: u32|
                #![trigger old(self)@[k]]
                old(self)@.contains_key(k) && old(self)@[k].target == target ==> old(self)@[k].strong
                    < u32::MAX,
        ensures
            final(self).wf(),
            forall|k: u32| #[trigger] old(self)@.contains_key(k) && old(self)@[k].target == target ==> h == k,
            final(self)@.contains_key(h) && final(self)@[h].target == target,
            (exists|k: u32| #[trigger] old(self)@.contains_key(k) && old(self)@[k].target == target) ==> {
                &&& old(self)@.contains_key(h)
                &&& old(self)@[h].target == target
                &&& final(self)@ == old(self)@.insert(
                    h,
                    Entry { strong: (old(self)@[h].strong + 1) as u32, ..old(self)@[h] },
                )
                &&& final(self).next_handle() == old(self).next_handle()
            },
            (forall|k: u32| #[trigger] old(self)@.contains_key(k) ==> old(self)@[k].target != target) ==> {
                &&& h != 0
                &&& first_free(old(self)@.dom(), old(self).next_handle(), h)
                &&& final(self)@ == old(self)@.insert(h, Entry { target, strong: 1, weak: 1 })
                &&& final(self).next_handle() == succ(h)
            },
    {
        match self.find(&target) {
            Some(handle) => {
                let entry = *self.entries.get(&handle).unwrap();
                let updated = Entry { strong: entry.strong + 1, ..entry };
                self.entries.insert(handle, updated);
                proof {
                    assert forall|a: u32, b: u32|
                        #![trigger self@[a], self@[b]]
                        self@.contains_key(a) && self@.contains_key(b) && a != b implies self@[a].target
                            != self@[b].target by {
                        assert(old(self)@.contains_key(a) && old(self)@.contains_key(b));
                    }
                }
                handle
            },
            None => {
                let handle = self.allocate();
                self.entries.insert(handle, Entry { target, strong: 1, weak: 1 });
                proof {
                    assert forall|a: u32, b: u32|
                        #![trigger self@[a], self@[b]]
                        self@.contains_key(a) && self@.contains_key(b) && a != b implies self@[a].target
                            != self@[b].target by {
                        if a != handle && b != handle {
                            assert(old(self)@.contains_key(a) && old(self)@.contains_key(b));
                        } else if a == handle {
                            assert(old(self)@.contains_key(b));
                        } else {
                            assert(old(self)@.contains_key(a));
                        }
                    }
                }
                handle
            },
        }
    }

    /// What a handle names.
    pub fn target(&self, handle: u32) -> (r: Option<Target>)
        ensures
            r == if self@.contains_key(handle) {
                Some(self@[handle].target)
            } else {
                None::<Target>
            },
    {
        match self.entries.get(&handle) {
            Some(entry) => Some(entry.target),
            None => None,
        }
    }

    /// Whether the table holds a handle.
    pub fn contains(&self, handle: u32) -> (r: bool)
        ensures
            r == self@.contains_key(handle),
    {
        self.entries.contains_key(&handle)
    }

    /// The strong references a handle carries.
    pub fn strong(&self, handle: u32) -> (r: Option<u32>)
        ensures
            r == if self@.contains_key(handle) {
                Some(self@[handle].strong)
            } else {
                None::<u32>
            },
    {
        match self.entries.get(&handle) {
            Some(entry) => Some(entry.strong),
            None => None,
        }
    }

    /// The weak references a handle carries.
    pub fn weak(&self, handle: u32) -> (r: Option<u32>)
        ensures
            r == if self@.contains_key(handle) {
                Some(self@[handle].weak)
            } else {
                None::<u32>
            },
    {
        match self.entries.get(&handle) {
            Some(entry) => Some(entry.weak),
            None => None,
        }
    }

    /// How many handles the table holds.
    pub fn len(&self) -> (r: usize)
        ensures
            r == self@.len(),
    {
        self.entries.len()
    }

    /// Whether the table holds no handle at all.
    pub fn is_empty(&self) -> (r: bool)
        ensures
            r == (self@.len() == 0),
    {
        self.entries.is_empty()
    }

    /// A strong reference, as `BC_ACQUIRE` carries.
    pub fn acquire(&mut self, handle: u32) -> (r: Result<Target, NoHandle>)
        requires
            old(self).wf(),
            old(self)@.contains_key(handle) ==> old(self)@[handle].strong < u32::MAX,
        ensures
            final(self).wf(),
            final(self).next_handle() == old(self).next_handle(),
            match r {
                Ok(t) => {
                    &&& old(self)@.contains_key(handle)
                    &&& t == old(self)@[handle].target
                    &&& final(self)@ == old(self)@.insert(
                        handle,
                        Entry { strong: (old(self)@[handle].strong + 1) as u32, ..old(self)@[handle] },
                    )
                },
                Err(e) => !old(self)@.contains_key(handle) && e.handle == handle && final(self)@
                    == old(self)@,
            },
    {
        match self.entries.get(&handle) {
            None => Err(NoHandle { handle }),
            Some(entry) => {
                let entry = *entry;
                self.entries.insert(handle, Entry { strong: entry.strong + 1, ..entry });
                proof { self.lemma_same_targets(old(self)@, handle); }
                Ok(entry.target)
            },
        }
    }

    /// Replacing an entry's counts keeps one handle per target.
    proof fn lemma_same_targets(&self, before: Map<u32, Entry>, handle: u32)
        requires
            one_handle_per_target(before),
            before.contains_key(handle),
            forall|k: u32| #[trigger] self@.contains_key(k) <==> before.contains_key(k),
            self@[handle].target == before[handle].target,
            forall|k: u32| #[trigger] before.contains_key(k) && k != handle ==> self@[k] == before[k],
        ensures
            one_handle_per_target(self@),
    {
        assert forall|a: u32, b: u32|
            #![trigger self@[a], self@[b]]
            self@.contains_key(a) && self@.contains_key(b) && a != b implies self@[a].target
                != self@[b].target by {
            assert(before.contains_key(a) && before.contains_key(b));
        }
    }

    /// A strong reference going away, as `BC_RELEASE` carries. The entry
    /// goes when no strong reference is left. Handle 0, the service manager,
    /// is never released: it keeps its entry and its counts.
    pub fn release(&mut self, handle: u32) -> (r: Result<Released, NoHandle>)
        requires
            old(self).wf(),
        ensures
            final(self).wf(),
            final(self).next_handle() == old(self).next_handle(),
            handle == 0 && old(self)@.contains_key(0) ==> final(self)@ == old(self)@ && r == Ok::<Released, NoHandle>(
                Released::Counted { strong: old(self)@[0].strong },
            ),
            match r {
                Ok(Released::Counted { strong }) => {
                    &&& old(self)@.contains_key(handle)
                    &&& handle == 0 ==> strong == old(self)@[handle].strong && final(self)@ == old(self)@
                    &&& handle != 0 ==> {
                        &&& old(self)@[handle].strong > 1
                        &&& strong == old(self)@[handle].strong - 1
                        &&& final(self)@ == old(self)@.insert(handle, Entry { strong, ..old(self)@[handle] })
                    }
                },
                Ok(Released::Dropped(t)) => {
                    &&& handle != 0
                    &&& old(self)@.contains_key(handle)
                    &&& old(self)@[handle].strong <= 1
                    &&& t == old(self)@[handle].target
                    &&& final(self)@ == old(self)@.remove(handle)
                },
                Err(e) => !old(self)@.contains_key(handle) && e.handle == handle && final(self)@
                    == old(self)@,
            },
    {
        match self.entries.get(&handle) {
            None => Err(NoHandle { handle }),
            Some(entry) => {
                let entry = *entry;
                if handle == 0 {
                    return Ok(Released::Counted { strong: entry.strong });
                }
                let strong = entry.strong.saturating_sub(1);
                if strong > 0 {
                    self.entries.insert(handle, Entry { strong, ..entry });
                    proof { self.lemma_same_targets(old(self)@, handle); }
                    return Ok(Released::Counted { strong });
                }
                self.entries.remove(&handle);
                proof {
                    assert forall|a: u32, b: u32|
                        #![trigger self@[a], self@[b]]
                        self@.contains_key(a) && self@.contains_key(b) && a != b implies self@[a].target
                            != self@[b].target by {
                        assert(old(self)@.contains_key(a) && old(self)@.contains_key(b));
                    }
                }
                Ok(Released::Dropped(entry.target))
            },
        }
    }

    /// A weak reference, as `BC_INCREFS` carries: it keeps the handle around
    /// without keeping the object alive.
    pub fn inc_refs(&mut self, handle: u32) -> (r: Result<(), NoHandle>)
        requires
            old(self).wf(),
            old(self)@.contains_key(handle) ==> old(self)@[handle].weak < u32::MAX,
        ensures
            final(self).wf(),
            final(self).next_handle() == old(self).next_handle(),
            match r {
                Ok(()) => {
                    &&& old(self)@.contains_key(handle)
                    &&& final(self)@ == old(self)@.insert(
                        handle,
                        Entry { weak: (old(self)@[handle].weak + 1) as u32, ..old(self)@[handle] },
                    )
                },
                Err(e) => !old(self)@.contains_key(handle) && e.handle == handle && final(self)@
                    == old(self)@,
            },
    {
        match self.entries.get(&handle) {
            None => Err(NoHandle { handle }),
            Some(entry) => {
                let entry = *entry;
                self.entries.insert(handle, Entry { weak: entry.weak + 1, ..entry });
                proof { self.lemma_same_targets(old(self)@, handle); }
                Ok(())
            },
        }
    }

    /// A weak reference going away. The entry goes when both counts are zero.
    pub fn dec_refs(&mut self, handle: u32) -> (r: Result<Released, NoHandle>)
        requires
            old(self).wf(),
        ensures
            final(self).wf(),
            final(self).next_handle() == old(self).next_handle(),
            match r {
                Ok(Released::Counted { strong }) => {
                    let weak = if old(self)@[handle].weak == 0 {
                        0u32
                    } else {
                        (old(self)@[handle].weak - 1) as u32
                    };
                    &&& old(self)@.contains_key(handle)
                    &&& (weak > 0 || old(self)@[handle].strong > 0)
                    &&& strong == old(self)@[handle].strong
                    &&& final(self)@ == old(self)@.insert(handle, Entry { weak, ..old(self)@[handle] })
                },
                Ok(Released::Dropped(t)) => {
                    &&& old(self)@.contains_key(handle)
                    &&& old(self)@[handle].weak <= 1
                    &&& old(self)@[handle].strong == 0
                    &&& t == old(self)@[handle].target
                    &&& final(self)@ == old(self)@.remove(handle)
                },
                Err(e) => !old(self)@.contains_key(handle) && e.handle == handle && final(self)@
                    == old(self)@,
            },
    {
        match self.entries.get(&handle) {
            None => Err(NoHandle { handle }),
            Some(entry) => {
                let entry = *entry;
                let weak = entry.weak.saturating_sub(1);
                if weak > 0 || entry.strong > 0 {
                    self.entries.insert(handle, Entry { weak, ..entry });
                    proof { self.lemma_same_targets(old(self)@, handle); }
                    return Ok(Released::Counted { strong: entry.strong });
                }
                self.entries.remove(&handle);
                proof {
                    assert forall|a: u32, b: u32|
                        #![trigger self@[a], self@[b]]
                        self@.contains_key(a) && self@.contains_key(b) && a != b implies self@[a].target
                            != self@[b].target by {
                        assert(old(self)@.contains_key(a) && old(self)@.contains_key(b));
                    }
                }
                Ok(Released::Dropped(entry.target))
            },
        }
    }

    /// Every handle and its target, in handle order.
    pub fn handles(&self) -> (r: Vec<(u32, Target)>)
        ensures
            forall|i: int, j: int| 0 <= i < j < r@.len() ==> (#[trigger] r@[i]).0 < (#[trigger] r@[j]).0,
            forall|i: int|
                0 <= i < r@.len() ==> self@.contains_key((#[trigger] r@[i]).0) && self@[r@[i].0].target
                    == r@[i].1,
            forall|h: u32| #[trigger] self@.contains_key(h) ==> exists|i: int| 0 <= i < r@.len() && (#[trigger] r@[i]).0 == h,
    {
        let mut all: Vec<(u32, Target)> = Vec::new();
        let ghost v = vstd::std_specs::hash::spec_hash_map_iter(&self.entries).remaining();
        for pair in it: self.entries.iter()
            invariant
                it.seq() == v,
                v == vstd::std_specs::hash::spec_hash_map_iter(&self.entries).remaining(),
                v.no_duplicates(),
                all@.len() == it.index(),
                forall|i: int|
                    0 <= i < all@.len() ==> (#[trigger] all@[i]).0 == *v[i].0 && all@[i].1 == v[i].1.target,
                forall|i: int, j: int| 0 <= i < j < all@.len() ==> (#[trigger] all@[i]).0 != (#[trigger] all@[j]).0,
        {
            let (handle, entry) = pair;
            proof {
                assert forall|i: int| 0 <= i < all@.len() implies all@[i].0 != *handle by {
                    assert(v.no_duplicates());
                    assert(v[i] != v[it.index() as int]);
                    assert(self@.contains_key(*v[i].0));
                    assert(self@[*v[i].0] == *v[i].1);
                    assert(self@[*v[it.index() as int].0] == *v[it.index() as int].1);
                }
            }
            all.push((*handle, entry.target));
        }
        let sorted = sort_by_handle(&all);
        proof {
            assert forall|h: u32| #[trigger] self@.contains_key(h) implies exists|i: int| 0 <= i < sorted@.len() && (#[trigger] sorted@[i]).0 == h by {
                assert(v.contains((&h, &self@[h])));
                let k = choose|k: int| 0 <= k < v.len() && v[k] == (&h, &self@[h]);
                assert(all@[k].0 == h);
                assert(sorted@.contains(all@[k]));
                let i = choose|i: int| 0 <= i < sorted@.len() && sorted@[i] == all@[k];
                assert(sorted@[i].0 == h);
            }
            assert forall|i: int| 0 <= i < sorted@.len() implies self@.contains_key((#[trigger] sorted@[i]).0) && self@[sorted@[i].0].target == sorted@[i].1 by {
                assert(all@.contains(sorted@[i]));
                let k = choose|k: int| 0 <= k < all@.len() && sorted@[i] == all@[k];
                assert(self@.contains_key(*v[k].0) && self@[*v[k].0] == *v[k].1);
            }
        }
        sorted
    }

    /// Forget every handle to a process that has gone. Returns what was
    /// dropped, handle and node, so the broker can account for each node.
    pub fn drop_owner(&mut self, owner: u32) -> (r: Vec<(u32, u64)>)
        requires
            old(self).wf(),
        ensures
            final(self).wf(),
            final(self).next_handle() == old(self).next_handle(),
            forall|h: u32|
                #[trigger] final(self)@.contains_key(h) <==> old(self)@.contains_key(h) && !owned_by(
                    old(self)@[h].target,
                    owner,
                ),
            forall|h: u32| #[trigger] final(self)@.contains_key(h) ==> final(self)@[h] == old(self)@[h],
            forall|i: int|
                0 <= i < r@.len() ==> old(self)@.contains_key((#[trigger] r@[i]).0) && old(self)@[r@[i].0].target
                    == (Target::Remote { node: r@[i].1, owner }),
            forall|h: u32|
                #[trigger] old(self)@.contains_key(h) && owned_by(old(self)@[h].target, owner) ==> exists|i: int|
                    0 <= i < r@.len() && (#[trigger] r@[i]).0 == h,
            forall|i: int, j: int| 0 <= i < j < r@.len() ==> (#[trigger] r@[i]).0 != (#[trigger] r@[j]).0,
    {
        let mut doomed: Vec<u32> = Vec::new();
        let ghost mut src: Seq<int> = Seq::empty();
        let ghost mut pos: Seq<int> = Seq::empty();
        let ghost v = vstd::std_specs::hash::spec_hash_map_iter(&self.entries).remaining();
        for pair in it: self.entries.iter()
            invariant
                it.seq() == v,
                v == vstd::std_specs::hash::spec_hash_map_iter(&self.entries).remaining(),
                v.no_duplicates(),
                src.len() == doomed@.len(),
                forall|i: int| 0 <= i < doomed@.len() ==> 0 <= #[trigger] src[i] < it.index() && doomed@[i] == *v[src[i]].0,
                forall|i: int|
                    0 <= i < doomed@.len() ==> self@.contains_key(#[trigger] doomed@[i]) && owned_by(
                        self@[doomed@[i]].target,
                        owner,
                    ),
                pos.len() == it.index(),
                forall|k: int|
                    0 <= k < it.index() && owned_by(v[k].1.target, owner) ==> 0 <= #[trigger] pos[k] < doomed@.len()
                        && doomed@[pos[k]] == *v[k].0,
                forall|i: int, j: int| 0 <= i < j < doomed@.len() ==> doomed@[i] != doomed@[j],
        {
            let (handle, entry) = pair;
            let matched = match entry.target {
                Target::Remote { owner: o, .. } => o == owner,
                _ => false,
            };
            if matched {
                proof {
                    assert forall|i: int| 0 <= i < doomed@.len() implies doomed@[i] != *handle by {
                        let k = src[i];
                        assert(v[k] != v[it.index() as int]);
                        assert(self@.contains_key(*v[k].0) && self@[*v[k].0] == *v[k].1);
                        assert(self@[*v[it.index() as int].0] == *v[it.index() as int].1);
                    }
                    assert(self@.contains_key(*handle) && self@[*handle] == *entry);
                }
                doomed.push(*handle);
                proof {
                    src = src.push(it.index() as int);
                    pos = pos.push((doomed@.len() - 1) as int);
                }
            } else {
                proof { pos = pos.push(0); }
            }
        }
        proof {
            assert forall|h: u32| #[trigger] self@.contains_key(h) && owned_by(self@[h].target, owner) implies exists|i: int|
                0 <= i < doomed@.len() && doomed@[i] == h by {
                assert(v.contains((&h, &self@[h])));
                let k = choose|k: int| 0 <= k < v.len() && v[k] == (&h, &self@[h]);
                assert(owned_by(v[k].1.target, owner));
                assert(doomed@[pos[k]] == h);
            }
        }
        let ghost before = self@;
        let mut dropped: Vec<(u32, u64)> = Vec::new();
        let mut i: usize = 0;
        while i < doomed.len()
            invariant
                self.next == old(self).next_handle(),
                before == old(self)@,
                one_handle_per_target(before),
                0 <= i <= doomed@.len(),
                forall|a: int|
                    0 <= a < doomed@.len() ==> before.contains_key(#[trigger] doomed@[a]) && owned_by(
                        before[doomed@[a]].target,
                        owner,
                    ),
                forall|a: int, b: int| 0 <= a < b < doomed@.len() ==> doomed@[a] != doomed@[b],
                forall|h: u32|
                    #[trigger] before.contains_key(h) && owned_by(before[h].target, owner) ==> exists|a: int|
                        0 <= a < doomed@.len() && doomed@[a] == h,
                forall|h: u32|
                    #[trigger] self@.contains_key(h) <==> before.contains_key(h) && !(exists|a: int|
                        0 <= a < i && doomed@[a] == h),
                forall|h: u32| #[trigger] self@.contains_key(h) ==> self@[h] == before[h],
                dropped@.len() == i,
                forall|a: int|
                    0 <= a < i ==> (#[trigger] dropped@[a]).0 == doomed@[a] && before[doomed@[a]].target
                        == (Target::Remote { node: dropped@[a].1, owner }),
            decreases doomed@.len() - i,
        {
            let handle = doomed[i];
            let ghost prev = self@;
            let removed = self.entries.remove(&handle);
            assert(self@ == prev.remove(handle));
            proof {
                assert(before.contains_key(handle));
                assert(!(exists|a: int| 0 <= a < i && doomed@[a] == handle));
                assert(old(self)@.contains_key(handle));
            }
            let node = match removed {
                Some(Entry { target: Target::Remote { node, .. }, .. }) => node,
                _ => 0,
            };
            dropped.push((handle, node));
            i = i + 1;
            proof {
                assert forall|h: u32| #[trigger] self@.contains_key(h) <==> before.contains_key(h) && !(exists|a: int|
                        0 <= a < i && doomed@[a] == h) by {
                    if h == handle {
                        assert(doomed@[(i - 1) as int] == h);
                    }
                }
            }
        }
        proof {
            assert forall|h: u32| #[trigger] self@.contains_key(h) <==> before.contains_key(h) && !owned_by(before[h].target, owner) by {
                if before.contains_key(h) && owned_by(before[h].target, owner) {
                    let a = choose|a: int| 0 <= a < doomed@.len() && doomed@[a] == h;
                    assert(exists|a: int| 0 <= a < i && doomed@[a] == h);
                }
            }
            assert forall|a: u32, b: u32|
                #![trigger self@[a], self@[b]]
                self@.contains_key(a) && self@.contains_key(b) && a != b implies self@[a].target
                    != self@[b].target by {
                assert(before.contains_key(a) && before.contains_key(b));
            }
            assert forall|h: u32| #[trigger] before.contains_key(h) && owned_by(before[h].target, owner) implies exists|a: int|
                0 <= a < dropped@.len() && (#[trigger] dropped@[a]).0 == h by {
                let a = choose|a: int| 0 <= a < doomed@.len() && doomed@[a] == h;
                assert(dropped@[a].0 == h);
            }
        }
        dropped
    }
}

/// Whether a target is an object of `owner`'s.
pub open spec fn owned_by(t: Target, owner: u32) -> bool {
    match t {
        Target::Remote { owner: o, .. } => o == owner,
        _ => false,
    }
}

/// Insertion sort by handle. The handles are distinct, so the order is strict.
fn sort_by_handle(v: &Vec<(u32, Target)>) -> (r: Vec<(u32, Target)>)
    requires
        forall|i: int, j: int| 0 <= i < j < v@.len() ==> (#[trigger] v@[i]).0 != (#[trigger] v@[j]).0,
    ensures
        r@.len() == v@.len(),
        forall|i: int, j: int| 0 <= i < j < r@.len() ==> (#[trigger] r@[i]).0 < (#[trigger] r@[j]).0,
        forall|i: int| 0 <= i < r@.len() ==> v@.contains(#[trigger] r@[i]),
        forall|k: int| 0 <= k < v@.len() ==> r@.contains(#[trigger] v@[k]),
{
    let mut out: Vec<(u32, Target)> = Vec::new();
    let ghost mut src: Seq<int> = Seq::empty();
    let ghost mut pos: Seq<int> = Seq::empty();
    let mut n: usize = 0;
    while n < v.len()
        invariant
            0 <= n <= v@.len(),
            out@.len() == n,
            src.len() == n,
            pos.len() == n,
            forall|i: int, j: int| 0 <= i < j < v@.len() ==> (#[trigger] v@[i]).0 != (#[trigger] v@[j]).0,
            sorted_by_handle(out@),
            forall|i: int| 0 <= i < n ==> 0 <= #[trigger] src[i] < n && out@[i] == v@[src[i]],
            forall|k: int| 0 <= k < n ==> 0 <= #[trigger] pos[k] < n && out@[pos[k]] == v@[k],
        decreases v@.len() - n,
    {
        let x = v[n];
        let mut p: usize = 0;
        while p < out.len() && out[p].0 < x.0
            invariant
                0 <= p <= out@.len(),
                forall|i: int| 0 <= i < p ==> (#[trigger] out@[i]).0 < x.0,
            decreases out@.len() - p,
        {
            p = p + 1;
        }
        proof {
            assert forall|i: int| 0 <= i < out@.len() implies (#[trigger] out@[i]).0 != x.0 by {
                assert(v@[src[i]].0 != v@[n as int].0);
            }
        }
        let ghost prev = out@;
        out.insert(p, x);
        proof {
            lemma_insert_sorted(prev, x, p as int);
            let new_src = src.take(p as int).push(n as int) + src.skip(p as int);
            let new_pos = Seq::new((n + 1) as nat, |k: int| if k == n { p as int } else if pos[k] >= p { pos[k] + 1 } else { pos[k] });
            assert forall|i: int| 0 <= i < n + 1 implies 0 <= #[trigger] new_src[i] < n + 1 && out@[i] == v@[new_src[i]] by {
                if i < p {
                    assert(new_src[i] == src[i]);
                } else if i > p {
                    assert(new_src[i] == src[i - 1]);
                }
            }
            assert forall|k: int| 0 <= k < n + 1 implies 0 <= #[trigger] new_pos[k] < n + 1 && out@[new_pos[k]] == v@[k] by {
            }
            src = new_src;
            pos = new_pos;
        }
        n = n + 1;
    }
    proof {
        lemma_witnessed(out@, v@, src);
        lemma_witnessed(v@, out@, pos);
    }
    out
}

/// Every element of `a` is found in `b`, at the given positions.
proof fn lemma_witnessed(a: Seq<(u32, Target)>, b: Seq<(u32, Target)>, at: Seq<int>)
    requires
        at.len() == a.len(),
        forall|i: int| 0 <= i < a.len() ==> 0 <= #[trigger] at[i] < b.len() && a[i] == b[at[i]],
    ensures
        forall|i: int| 0 <= i < a.len() ==> b.contains(#[trigger] a[i]),
{
    assert forall|i: int| 0 <= i < a.len() implies b.contains(#[trigger] a[i]) by {
        assert(a[i] == b[at[i]]);
    }
}


/// Strictly ascending handles.
pub open spec fn sorted_by_handle(s: Seq<(u32, Target)>) -> bool {
    forall|i: int, j: int| 0 <= i < j < s.len() ==> (#[trigger] s[i]).0 < (#[trigger] s[j]).0
}

/// Inserting at the first position whose handle is not smaller keeps the
/// order, when the handle is new.
proof fn lemma_insert_sorted(prev: Seq<(u32, Target)>, x: (u32, Target), p: int)
    requires
        sorted_by_handle(prev),
        0 <= p <= prev.len(),
        forall|i: int| 0 <= i < p ==> (#[trigger] prev[i]).0 < x.0,
        p < prev.len() ==> prev[p].0 >= x.0,
        forall|i: int| 0 <= i < prev.len() ==> (#[trigger] prev[i]).0 != x.0,
    ensures
        sorted_by_handle(prev.insert(p, x)),
{
    let out = prev.insert(p, x);
    assert forall|i: int, j: int| 0 <= i < j < out.len() implies (#[trigger] out[i]).0 < (#[trigger] out[j]).0 by {
        if j < p {
            assert(out[i] == prev[i] && out[j] == prev[j]);
        } else if j == p {
            assert(out[i] == prev[i]);
        } else if i < p {
            assert(out[i] == prev[i] && out[j] == prev[j - 1]);
            assert(prev[p].0 > x.0);
            if j - 1 > p {
                assert(prev[p].0 < prev[j - 1].0);
            }
        } else if i == p {
            assert(out[j] == prev[j - 1]);
            assert(prev[p].0 > x.0);
            if j - 1 > p {
                assert(prev[p].0 < prev[j - 1].0);
            }
        } else {
            assert(out[i] == prev[i - 1] && out[j] == prev[j - 1]);
        }
    }
}

} // verus!
