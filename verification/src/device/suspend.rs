//! `SystemSuspend`, in userspace.
//!
//! The framework reaches it three ways, and all three are hard requirements:
//! `suspend_control` for the wakeup callback the battery statistics
//! register, `suspend_control_internal` for autosuspend and the statistics,
//! and the wake lock HAL. A host with no kernel suspend does nothing here, on
//! purpose: a wake lock is granted and holds nothing, autosuspend is reported
//! as enabled, and a forced suspend reports that it did not happen.

pub mod control;
pub mod hal;
pub mod internal;
pub mod wakelock;

use vstd::prelude::*;

use crate::binder::service::BinderObject;

use crate::binder::parcel::{binder_object_bytes, Parcel, BINDER_TYPE_HANDLE, STABILITY_SYSTEM};
use crate::binder::{refusal, refusal_bytes, Answer, Handed, HandedView, Hosted};
use crate::octets::{le32, le64};

verus! {

/// The interface names as they appear in a request's interface token.
pub const SUSPEND_CONTROL: &'static str = "android.system.suspend.ISuspendControlService";
pub const SUSPEND_CONTROL_INTERNAL: &'static str = "android.system.suspend.internal.ISuspendControlServiceInternal";
pub const SYSTEM_SUSPEND: &'static str = "android.system.suspend.ISystemSuspend";
pub const WAKE_LOCK: &'static str = "android.system.suspend.IWakeLock";

/// The names these are published under.
pub const CONTROL_NAME: &'static str = "suspend_control";
pub const CONTROL_INTERNAL_NAME: &'static str = "suspend_control_internal";
pub const HAL_NAME: &'static str = "android.system.suspend.ISystemSuspend/default";

/// The fields of `internal.SuspendInfo`, all of them `long`.
pub const SUSPEND_INFO_FIELDS: usize = 10;

/// `n` zero longs.
pub open spec fn zero_longs(n: nat) -> Seq<u8>
    decreases n,
{
    if n == 0 {
        Seq::empty()
    } else {
        zero_longs((n - 1) as nat) + le64(0)
    }
}

/// `suspend_control`: the wakeup callback is accepted and never called,
/// because nothing here suspends the machine.
pub struct SuspendControl;

impl SuspendControl {
    /// The interface this object is.
    pub fn descriptor(&self) -> (r: &'static str)
        ensures
            r@ == SUSPEND_CONTROL@,
    {
        SUSPEND_CONTROL
    }

    /// True for the two registrations, false for anything else.
    pub fn transact(&mut self, code: u32, data: &[u8]) -> (a: Answer)
        ensures
            a.data@ == le32(
                if code == control::REGISTER_CALLBACK || code == control::REGISTER_WAKELOCK_CALLBACK {
                    1u32
                } else {
                    0u32
                },
            ),
            a.objects@.len() == 0,
            a.calls@.len() == 0,
            a.fds@.len() == 0,
    {
        let mut reply = Parcel::new();
        reply.boolean(code == control::REGISTER_CALLBACK || code == control::REGISTER_WAKELOCK_CALLBACK);
        assert(reply@ =~= le32(
            if code == control::REGISTER_CALLBACK || code == control::REGISTER_WAKELOCK_CALLBACK {
                1u32
            } else {
                0u32
            },
        ));
        Answer::of(reply.into_bytes())
    }
}

/// `suspend_control_internal`: what the power manager drives the machine
/// with.
pub struct SuspendControlInternal;

impl SuspendControlInternal {
    /// The interface this object is.
    pub fn descriptor(&self) -> (r: &'static str)
        ensures
            r@ == SUSPEND_CONTROL_INTERNAL@,
    {
        SUSPEND_CONTROL_INTERNAL
    }

    /// Autosuspend is enabled; a forced suspend did not happen; the wake
    /// lock and wakeup statistics are empty arrays; the suspend statistics
    /// are present and all zero; anything else is false.
    pub fn transact(&mut self, code: u32, data: &[u8]) -> (a: Answer)
        ensures
            code == internal::ENABLE_AUTOSUSPEND ==> a.data@ == le32(1),
            code == internal::FORCE_SUSPEND ==> a.data@ == le32(0),
            (code == internal::GET_WAKELOCK_STATS || code == internal::GET_WAKEUP_STATS) ==> a.data@ == le32(0),
            code == internal::GET_SUSPEND_STATS ==> a.data@ == le32(1) + zero_longs(SUSPEND_INFO_FIELDS as nat),
            !(1 <= code <= 5) ==> a.data@ == le32(0),
            a.objects@.len() == 0,
            a.calls@.len() == 0,
            a.fds@.len() == 0,
    {
        let mut reply = Parcel::new();
        if code == internal::ENABLE_AUTOSUSPEND {
            reply.boolean(true);
        } else if code == internal::FORCE_SUSPEND {
            reply.boolean(false);
        } else if code == internal::GET_WAKELOCK_STATS || code == internal::GET_WAKEUP_STATS {
            reply.empty_array();
        } else if code == internal::GET_SUSPEND_STATS {
            reply.parcelable_present();
            let mut i: usize = 0;
            while i < SUSPEND_INFO_FIELDS
                invariant
                    i <= SUSPEND_INFO_FIELDS,
                    reply@ == Seq::<u8>::empty() + le32(1) + zero_longs(i as nat),
                decreases SUSPEND_INFO_FIELDS - i,
            {
                reply.i64(0);
                i = i + 1;
                assert(reply@ =~= Seq::<u8>::empty() + le32(1) + zero_longs(i as nat));
            }
        } else {
            reply.boolean(false);
        }
        assert(Seq::<u8>::empty() + le32(1) =~= le32(1));
        assert(Seq::<u8>::empty() + le32(0) =~= le32(0));
        assert(Seq::<u8>::empty() + le32(1) + zero_longs(SUSPEND_INFO_FIELDS as nat) =~= le32(1) + zero_longs(
            SUSPEND_INFO_FIELDS as nat,
        ));
        Answer::of(reply.into_bytes())
    }
}

/// The wake lock HAL: `acquireWakeLock` hands back a lock the caller holds
/// until it releases it, and the HAL counts the releases the broker reports.
pub struct SystemSuspend {
    released: u32,
}

impl SystemSuspend {
    /// A HAL that has handed out nothing yet.
    pub fn new() -> (r: SystemSuspend)
        ensures
            r.released_count() == 0,
    {
        SystemSuspend { released: 0 }
    }

    /// How many of the wake locks this HAL handed out have been released.
    pub closed spec fn released_count(&self) -> u32 {
        self.released
    }

    /// How many of the wake locks this HAL handed out have been released.
    pub fn released(&self) -> (r: u32)
        ensures
            r == self.released_count(),
    {
        self.released
    }

    /// One of its wake locks was released.
    pub fn note_release(&mut self)
        requires
            old(self).released_count() < u32::MAX,
        ensures
            final(self).released_count() == old(self).released_count() + 1,
    {
        self.released = self.released + 1;
    }

    /// The interface this object is.
    pub fn descriptor(&self) -> (r: &'static str)
        ensures
            r@ == SYSTEM_SUSPEND@,
    {
        SYSTEM_SUSPEND
    }

    /// A new wake lock for `acquireWakeLock`, as an object word whose handle
    /// the broker fills in; false for anything else.
    pub fn transact(&mut self, code: u32, data: &[u8]) -> (a: Answer)
        ensures
            final(self).released_count() == old(self).released_count(),
            code == hal::ACQUIRE_WAKE_LOCK ==> {
                &&& a.data@ == binder_object_bytes(BINDER_TYPE_HANDLE, 0, 0, STABILITY_SYSTEM)
                &&& a.objects@.len() == 1
                &&& a.objects@[0].offset == 0
                &&& a.objects@[0].object@ == HandedView::New { key: None, object: Hosted::WakeLock }
            },
            code != hal::ACQUIRE_WAKE_LOCK ==> a.data@ == le32(0) && a.objects@.len() == 0,
            a.calls@.len() == 0,
            a.fds@.len() == 0,
    {
        let mut reply = Parcel::new();
        if code != hal::ACQUIRE_WAKE_LOCK {
            reply.boolean(false);
            assert(Seq::<u8>::empty() + le32(0) =~= le32(0));
            return Answer::of(reply.into_bytes());
        }
        let offset = reply.handle_binder(0);
        let a = Answer::of(reply.into_bytes());
        a.handing(offset, Handed::New { key: None, object: Hosted::WakeLock })
    }
}

/// `android.system.suspend.IWakeLock`: the object `acquireWakeLock` hands
/// back. It holds nothing, but it has to exist.
pub struct WakeLock;

impl WakeLock {
    /// The interface this object is.
    pub fn descriptor(&self) -> (r: &'static str)
        ensures
            r@ == WAKE_LOCK@,
    {
        WAKE_LOCK
    }

    /// `release`, which is oneway, answers nothing; anything else is refused.
    pub fn transact(&mut self, code: u32, data: &[u8]) -> (a: Answer)
        ensures
            code == wakelock::RELEASE ==> a.data@.len() == 0,
            code != wakelock::RELEASE ==> a.data@ == refusal_bytes("IWakeLock"@, code),
            a.objects@.len() == 0,
            a.calls@.len() == 0,
            a.fds@.len() == 0,
    {
        if code == wakelock::RELEASE {
            return Answer::of(Vec::new());
        }
        Answer::of(refusal("IWakeLock", code))
    }
}

impl BinderObject for SuspendControl {
    fn transact(&mut self, code: u32, data: &[u8]) -> Result<Answer, String> {
        Ok(SuspendControl::transact(self, code, data))
    }

    fn descriptor(&self) -> String {
        let d = SuspendControl::descriptor(self);
        crate::text::string_of(crate::text::chars_of(d).as_slice())
    }
}

impl BinderObject for SuspendControlInternal {
    fn transact(&mut self, code: u32, data: &[u8]) -> Result<Answer, String> {
        Ok(SuspendControlInternal::transact(self, code, data))
    }

    fn descriptor(&self) -> String {
        let d = SuspendControlInternal::descriptor(self);
        crate::text::string_of(crate::text::chars_of(d).as_slice())
    }
}

impl BinderObject for SystemSuspend {
    fn transact(&mut self, code: u32, data: &[u8]) -> Result<Answer, String> {
        Ok(SystemSuspend::transact(self, code, data))
    }

    fn descriptor(&self) -> String {
        let d = SystemSuspend::descriptor(self);
        crate::text::string_of(crate::text::chars_of(d).as_slice())
    }
}

impl BinderObject for WakeLock {
    fn transact(&mut self, code: u32, data: &[u8]) -> Result<Answer, String> {
        Ok(WakeLock::transact(self, code, data))
    }

    fn descriptor(&self) -> String {
        let d = WakeLock::descriptor(self);
        crate::text::string_of(crate::text::chars_of(d).as_slice())
    }
}

} // verus!
