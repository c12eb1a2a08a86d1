//! Services that live in the broker process and answer by name.

use vstd::prelude::*;

use crate::binder::parcel::{string16_after, Parcel, INTERFACE_TRANSACTION, PING_TRANSACTION};
use crate::binder::Answer;
use crate::broker::registry::{names_in_order, sort_names};
use crate::text::{push_str, same_text, string_of};

verus! {

/// A Binder object a service hands out or hosts: something that answers a
/// transaction with a parcel.
pub trait BinderObject {
    /// Answer a call. An error is reported back to the caller as text.
    fn transact(&mut self, code: u32, data: &[u8]) -> Result<Answer, String>;

    /// Answer a call whose parcel carried binder objects, given the handles
    /// they became in the caller's table. This is the only place those
    /// handles reach the object.
    fn transact_with(&mut self, code: u32, data: &[u8], arguments: &[u32]) -> Result<Answer, String> {
        self.transact(code, data)
    }

    /// The interface it implements, which is what an interface query
    /// answers: none, unless the object says which.
    fn descriptor(&self) -> (r: String)
        default_ensures
            r@ == Seq::<char>::empty(),
    {
        String::new()
    }
}

/// What a call to a name nobody registered says.
pub open spec fn no_service_text(name: Seq<char>) -> Seq<char> {
    "no such service: "@ + name
}

/// The reply to an interface query: the descriptor as a parcel string.
pub open spec fn interface_reply(descriptor: Seq<char>) -> Seq<u8> {
    string16_after(Seq::empty(), descriptor)
}

/// The objects the broker answers for, by name.
pub struct ServiceRegistry<T> {
    objects: Vec<(String, T)>,
}

impl<T: BinderObject> ServiceRegistry<T> {
    /// The registered names, one per object.
    pub closed spec fn names_seq(&self) -> Seq<Seq<char>> {
        self.objects@.map_values(|e: (String, T)| e.0@)
    }

    /// The registered names.
    pub open spec fn registered(&self) -> Set<Seq<char>> {
        self.names_seq().to_set()
    }

    /// No name is registered twice.
    pub closed spec fn wf(&self) -> bool {
        self.names_seq().no_duplicates()
    }

    /// The object registered under `name`.
    pub closed spec fn object_named(&self, name: Seq<char>) -> T {
        self.objects@[choose|i: int| 0 <= i < self.objects@.len() && self.objects@[i].0@ == name].1
    }

    /// An empty registry.
    pub fn new() -> (r: Self)
        ensures
            r.wf(),
            r.registered() == Set::<Seq<char>>::empty(),
    {
        let r = ServiceRegistry { objects: Vec::new() };
        assert(r.names_seq() =~= Seq::<Seq<char>>::empty());
        r
    }

    /// Where `name` is registered.
    fn position(&self, name: &str) -> (r: Option<usize>)
        ensures
            match r {
                Some(i) => i < self.objects@.len() && self.objects@[i as int].0@ == name@
                    && self.registered().contains(name@),
                None => !self.registered().contains(name@),
            },
    {
        let mut i: usize = 0;
        while i < self.objects.len()
            invariant
                i <= self.objects@.len(),
                forall|k: int| 0 <= k < i ==> (#[trigger] self.objects@[k]).0@ != name@,
            decreases self.objects@.len() - i,
        {
            if same_text(self.objects[i].0.as_str(), name) {
                assert(self.names_seq()[i as int] == name@);
                assert(self.names_seq().contains(name@));
                return Some(i);
            }
            i = i + 1;
        }
        proof {
            if self.registered().contains(name@) {
                let k = choose|k: int| 0 <= k < self.names_seq().len() && self.names_seq()[k] == name@;
                assert(self.objects@[k].0@ == name@);
            }
        }
        None
    }

    /// Register `object` under `name`, in place of any object of that name.
    pub fn register(&mut self, name: &str, object: T)
        requires
            old(self).wf(),
        ensures
            final(self).wf(),
            final(self).registered() == old(self).registered().insert(name@),
    {
        let ghost before = self.names_seq();
        match self.position(name) {
            Some(i) => {
                let _ = self.objects.remove(i);
                self.objects.insert(i, (string_of(crate::text::chars_of(name).as_slice()), object));
                proof {
                    assert(self.names_seq() =~= before.update(i as int, name@));
                    assert forall|a: int, b: int| 0 <= a < b < self.names_seq().len() implies self.names_seq()[a] != self.names_seq()[b] by {
                        if a != i && b != i {
                            assert(before[a] != before[b]);
                        } else if a == i {
                            assert(before[a] != before[b]);
                        } else {
                            assert(before[a] != before[b]);
                        }
                    }
                    assert forall|s: Seq<char>| #[trigger] self.registered().contains(s) <==> old(self).registered().insert(name@).contains(s) by {
                        if self.registered().contains(s) {
                            let k = choose|k: int| 0 <= k < self.names_seq().len() && self.names_seq()[k] == s;
                            if k != i {
                                assert(before[k] == s);
                            }
                        }
                        if old(self).registered().contains(s) {
                            let k = choose|k: int| 0 <= k < before.len() && before[k] == s;
                            if k != i {
                                assert(self.names_seq()[k] == s);
                            }
                        }
                        if s == name@ {
                            assert(self.names_seq()[i as int] == s);
                        }
                    }
                    assert(self.registered() =~= old(self).registered().insert(name@));
                }
            },
            None => {
                self.objects.push((string_of(crate::text::chars_of(name).as_slice()), object));
                proof {
                    assert(self.names_seq() =~= before.push(name@));
                    assert(self.registered() =~= old(self).registered().insert(name@)) by {
                        assert forall|s: Seq<char>| #[trigger] self.registered().contains(s) <==> old(self).registered().insert(name@).contains(s) by {
                            if self.registered().contains(s) {
                                let k = choose|k: int| 0 <= k < self.names_seq().len() && self.names_seq()[k] == s;
                                if k < before.len() {
                                    assert(before[k] == s);
                                }
                            }
                            if old(self).registered().contains(s) {
                                let k = choose|k: int| 0 <= k < before.len() && before[k] == s;
                                assert(self.names_seq()[k] == s);
                            }
                            if s == name@ {
                                assert(self.names_seq()[before.len() as int] == s);
                            }
                        }
                    }
                }
            },
        }
    }

    /// Whether anything is registered under `name`.
    pub fn contains(&self, name: &str) -> (r: bool)
        ensures
            r == self.registered().contains(name@),
    {
        self.position(name).is_some()
    }

    /// The registered names, in name order.
    pub fn names(&self) -> (r: Vec<String>)
        requires
            self.wf(),
        ensures
            names_in_order(r@.map_values(|s: String| s@)),
            r@.map_values(|s: String| s@).to_set() == self.registered(),
            r@.map_values(|s: String| s@).no_duplicates(),
    {
        let mut all: Vec<String> = Vec::new();
        let mut i: usize = 0;
        while i < self.objects.len()
            invariant
                i <= self.objects@.len(),
                all@.map_values(|s: String| s@) == self.names_seq().take(i as int),
            decreases self.objects@.len() - i,
        {
            let ghost prev = all@;
            let name = self.objects[i].0.clone();
            assert(name@ == self.names_seq()[i as int]);
            all.push(name);
            assert(all@.map_values(|s: String| s@) =~= prev.map_values(|s: String| s@).push(name@));
            i = i + 1;
            assert(all@.map_values(|s: String| s@) =~= self.names_seq().take(i as int));
        }
        assert(self.names_seq().take(i as int) =~= self.names_seq());
        let r = sort_names(all);
        proof {
            let rv = r@.map_values(|s: String| s@);
            let nv = self.names_seq();
            assert forall|s: Seq<char>| rv.to_set().contains(s) <==> nv.to_set().contains(s) by {
                vstd::seq_lib::to_multiset_contains(rv, s);
                vstd::seq_lib::to_multiset_contains(nv, s);
                rv.to_multiset_ensures();
                nv.to_multiset_ensures();
            }
            assert(rv.to_set() =~= nv.to_set());
            nv.lemma_multiset_has_no_duplicates();
            rv.lemma_multiset_has_no_duplicates_conv();
        }
        r
    }

    /// Answer a call to the object registered under `name`.
    pub fn transact(&mut self, name: &str, code: u32, data: &[u8]) -> (r: Result<Answer, String>)
        requires
            old(self).wf(),
        ensures
            final(self).wf(),
            final(self).registered() == old(self).registered(),
            !old(self).registered().contains(name@) ==> r is Err && r->Err_0@ == no_service_text(name@),
            old(self).registered().contains(name@) && code == PING_TRANSACTION ==> r is Ok && r->Ok_0.data@.len() == 0
                && r->Ok_0.objects@.len() == 0 && r->Ok_0.calls@.len() == 0 && r->Ok_0.fds@.len() == 0,
            old(self).registered().contains(name@) && code == INTERFACE_TRANSACTION ==> r is Ok
                && exists|d: String|
                call_ensures(T::descriptor, (&old(self).object_named(name@),), d) && r->Ok_0.data@ == #[trigger] interface_reply(d@),
            old(self).registered().contains(name@) && code != PING_TRANSACTION && code != INTERFACE_TRANSACTION
                ==> exists|o: &mut T, none: &[u32]|
                #[trigger] call_ensures(T::transact_with, (o, code, data, none), r) && none@.len() == 0
                    && mut_ref_current(o) == old(self).object_named(name@),
    {
        let none: [u32; 0] = [];
        let r = self.transact_with(name, code, data, &none);
        assert(none@ =~= Seq::<u32>::empty());
        r
    }

    /// Answer a call to the object registered under `name`, with the handles
    /// the objects in its parcel became.
    pub fn transact_with(&mut self, name: &str, code: u32, data: &[u8], arguments: &[u32]) -> (r: Result<Answer, String>)
        requires
            old(self).wf(),
        ensures
            final(self).wf(),
            final(self).registered() == old(self).registered(),
            !old(self).registered().contains(name@) ==> r is Err && r->Err_0@ == no_service_text(name@),
            old(self).registered().contains(name@) && code == PING_TRANSACTION ==> r is Ok && r->Ok_0.data@.len() == 0
                && r->Ok_0.objects@.len() == 0 && r->Ok_0.calls@.len() == 0 && r->Ok_0.fds@.len() == 0,
            old(self).registered().contains(name@) && code == INTERFACE_TRANSACTION ==> r is Ok
                && exists|d: String|
                call_ensures(T::descriptor, (&old(self).object_named(name@),), d) && r->Ok_0.data@ == #[trigger] interface_reply(d@),
            old(self).registered().contains(name@) && code != PING_TRANSACTION && code != INTERFACE_TRANSACTION
                ==> exists|o: &mut T|
                #[trigger] call_ensures(T::transact_with, (o, code, data, arguments), r) && mut_ref_current(o)
                    == old(self).object_named(name@),
    {
        match self.position(name) {
            None => {
                let mut v: Vec<char> = Vec::new();
                push_str(&mut v, "no such service: ");
                push_str(&mut v, name);
                Err(string_of(v.as_slice()))
            },
            Some(i) => {
                let ghost before = self.names_seq();
                proof {
                    let k = choose|k: int| 0 <= k < self.objects@.len() && self.objects@[k].0@ == name@;
                    assert(self.names_seq()[k] == name@ && self.names_seq()[i as int] == name@);
                    assert(k == i);
                }
                let (key, mut object) = self.objects.remove(i);
                let r = Self::answer_itself(&mut object, code, data, arguments);
                self.objects.insert(i, (key, object));
                proof {
                    assert(self.names_seq() =~= before);
                }
                r
            },
        }
    }

    /// The calls every object answers the same way, and the rest by the
    /// object itself.
    pub fn answer_itself(object: &mut T, code: u32, data: &[u8], arguments: &[u32]) -> (r: Result<Answer, String>)
        ensures
            code == PING_TRANSACTION ==> r is Ok && r->Ok_0.data@.len() == 0 && r->Ok_0.objects@.len() == 0
                && r->Ok_0.calls@.len() == 0 && r->Ok_0.fds@.len() == 0,
            code == INTERFACE_TRANSACTION ==> r is Ok && exists|d: String|
                call_ensures(T::descriptor, (&*old(object),), d) && r->Ok_0.data@ == #[trigger] interface_reply(d@),
            code == PING_TRANSACTION || code == INTERFACE_TRANSACTION ==> *final(object) == *old(object),
            code != PING_TRANSACTION && code != INTERFACE_TRANSACTION ==> exists|o: &mut T|
                #[trigger] call_ensures(T::transact_with, (o, code, data, arguments), r) && mut_ref_current(o)
                    == *old(object) && mut_ref_future(o) == *final(object),
    {
        if code == PING_TRANSACTION {
            return Ok(Answer::of(Vec::new()));
        }
        if code == INTERFACE_TRANSACTION {
            let mut reply = Parcel::new();
            let d = object.descriptor();
            reply.string16(d.as_str());
            let a = Answer::of(reply.into_bytes());
            assert(a.data@ == interface_reply(d@));
            return Ok(a);
        }
        object.transact_with(code, data, arguments)
    }
}

} // verus!
