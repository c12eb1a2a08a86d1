//! `android.os.IIdmap2`: there are no fabricated overlays and no idmaps
//! here, so the iterators are empty and the removals have nothing to remove;
//! the compiler's methods are refused.

pub mod code;

use vstd::prelude::*;

use crate::binder::service::BinderObject;

use crate::binder::parcel::{binder_object_bytes, Parcel, BINDER_TYPE_BINDER, BINDER_TYPE_HANDLE, STABILITY_SYSTEM, STABILITY_UNDECLARED};
use crate::binder::{refusal, refusal_bytes, Answer, Handed, HandedView, Hosted};
use crate::octets::le32;
use crate::device::idmap::code::{
    ACQUIRE_FABRICATED_OVERLAY_ITERATOR, DELETE_FABRICATED_OVERLAY, NEXT_FABRICATED_OVERLAY_INFOS,
    RELEASE_FABRICATED_OVERLAY_ITERATOR, REMOVE_IDMAP,
};

verus! {

/// The name the framework looks up.
pub const NAME: &'static str = "idmap";

/// The interface's own token.
pub const DESCRIPTOR: &'static str = "android.os.IIdmap2";

/// The overlay iterator's token.
pub const ITERATOR_DESCRIPTOR: &'static str = "android.os.IIdmap2$FabricatedOverlayIterator";


/// The idmap service.
pub struct Idmap;

impl Idmap {
    pub fn new() -> (r: Idmap)
        ensures
            r == Idmap,
    {
        Idmap
    }

    /// The interface this object is.
    pub fn descriptor(&self) -> (r: &'static str)
        ensures
            r@ == DESCRIPTOR@,
    {
        DESCRIPTOR
    }

    /// The answer to a call: an iterator over nothing, an empty list of
    /// overlays, nothing to say for a removal, and a refusal for the rest.
    pub fn transact(&mut self, code: u32, data: &[u8]) -> (a: Answer)
        ensures
            code == ACQUIRE_FABRICATED_OVERLAY_ITERATOR ==> {
                &&& a.data@ == binder_object_bytes(BINDER_TYPE_HANDLE, 0, 0, STABILITY_SYSTEM)
                &&& a.objects@.len() == 1
                &&& a.objects@[0].offset == 0
                &&& a.objects@[0].object@ == HandedView::New { key: None, object: Hosted::OverlayIterator }
            },
            code == NEXT_FABRICATED_OVERLAY_INFOS ==> a.data@ == le32(0) && a.objects@.len() == 0,
            (code == DELETE_FABRICATED_OVERLAY || code == RELEASE_FABRICATED_OVERLAY_ITERATOR || code == REMOVE_IDMAP)
                ==> a.data@.len() == 0 && a.objects@.len() == 0,
            !(code == ACQUIRE_FABRICATED_OVERLAY_ITERATOR || code == NEXT_FABRICATED_OVERLAY_INFOS || code
                == DELETE_FABRICATED_OVERLAY || code == RELEASE_FABRICATED_OVERLAY_ITERATOR || code == REMOVE_IDMAP)
                ==> a.data@ == refusal_bytes(DESCRIPTOR@, code) && a.objects@.len() == 0,
            a.calls@.len() == 0,
            a.fds@.len() == 0,
    {
        if code == ACQUIRE_FABRICATED_OVERLAY_ITERATOR {
            let mut reply = Parcel::new();
            let offset = reply.handle_binder(0);
            let a = Answer::of(reply.into_bytes());
            a.handing(offset, Handed::New { key: None, object: Hosted::OverlayIterator })
        } else if code == NEXT_FABRICATED_OVERLAY_INFOS {
            let mut reply = Parcel::new();
            reply.i32(0);
            Answer::of(reply.into_bytes())
        } else if code == DELETE_FABRICATED_OVERLAY || code == RELEASE_FABRICATED_OVERLAY_ITERATOR || code
            == REMOVE_IDMAP {
            Answer::of(Vec::new())
        } else {
            Answer::of(refusal(DESCRIPTOR, code))
        }
    }
}

/// The iterator `acquireFabricatedOverlayIterator` hands back, over nothing.
pub struct EmptyIterator;

impl EmptyIterator {
    /// The interface this object is.
    pub fn descriptor(&self) -> (r: &'static str)
        ensures
            r@ == ITERATOR_DESCRIPTOR@,
    {
        ITERATOR_DESCRIPTOR
    }

    /// `next()` answers a null: there is no next. The iterator has no other
    /// method.
    pub fn transact(&mut self, code: u32, data: &[u8]) -> (a: Answer)
        ensures
            code == 1 ==> a.data@ == binder_object_bytes(BINDER_TYPE_BINDER, 0, 0, STABILITY_UNDECLARED),
            code != 1 ==> a.data@ == refusal_bytes(ITERATOR_DESCRIPTOR@, code),
            a.objects@.len() == 0,
            a.calls@.len() == 0,
            a.fds@.len() == 0,
    {
        if code == 1 {
            let mut reply = Parcel::new();
            reply.null_binder();
            Answer::of(reply.into_bytes())
        } else {
            Answer::of(refusal(ITERATOR_DESCRIPTOR, code))
        }
    }
}

impl BinderObject for Idmap {
    fn transact(&mut self, code: u32, data: &[u8]) -> Result<Answer, String> {
        Ok(Idmap::transact(self, code, data))
    }

    fn descriptor(&self) -> String {
        let d = Idmap::descriptor(self);
        crate::text::string_of(crate::text::chars_of(d).as_slice())
    }
}

impl BinderObject for EmptyIterator {
    fn transact(&mut self, code: u32, data: &[u8]) -> Result<Answer, String> {
        Ok(EmptyIterator::transact(self, code, data))
    }

    fn descriptor(&self) -> String {
        let d = EmptyIterator::descriptor(self);
        crate::text::string_of(crate::text::chars_of(d).as_slice())
    }
}

} // verus!
