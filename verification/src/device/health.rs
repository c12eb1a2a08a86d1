//! The health HAL, in userspace: this machine's battery.
//!
//! The battery service asks `android.hardware.health.IHealth/default` for
//! the battery's state and refuses to start without it. On a laptop the
//! kernel's power supply class has the numbers; what the host does not have,
//! this says it does not have rather than inventing it.

pub mod code;
pub mod status;

use vstd::prelude::*;

use crate::binder::service::BinderObject;

use crate::binder::parcel::{java_call, java_call_bytes, string16_after, Parcel};
use crate::binder::{refusal, refusal_bytes, Answer, PendingCall};
use crate::octets::{le32, le64};

verus! {

broadcast use vstd::string::group_string_axioms;

/// The name the framework looks up: `<interface>/<instance>`.
pub const NAME: &'static str = "android.hardware.health.IHealth/default";
/// The interface's own token.
pub const DESCRIPTOR: &'static str = "android.hardware.health.IHealth";
/// The callback interface, which the receiver checks the parcel against.
pub const CALLBACK: &'static str = "android.hardware.health.IHealthInfoCallback";

/// `BatteryHealth::GOOD`: this host's kernel reports no health file.
pub const HEALTH_GOOD: i32 = 2;
/// `BatteryCapacityLevel::UNKNOWN`: a percentage is not one of the named
/// levels.
pub const CAPACITY_LEVEL_UNKNOWN: i32 = 0;

/// The battery, as the kernel's power supply class has it.
#[derive(Debug, Clone, PartialEq, Eq)]
pub struct Battery {
    /// The name under `/sys/class/power_supply`, e.g. `BAT1`.
    pub name: String,
    pub present: bool,
    pub capacity: i32,
    pub status: i32,
    pub voltage_millivolts: i32,
    pub temperature_tenths_celsius: i32,
    pub current_microamps: i32,
    pub charge_counter_uah: i32,
    pub cycle_count: i32,
    pub technology: String,
    /// Whether the AC adapter reports itself online.
    pub ac_online: bool,
    /// Whether a USB supply reports itself online.
    pub usb_online: bool,
}

/// The numbers of a battery a health answer carries, and its technology.
pub struct BatteryView {
    pub present: bool,
    pub capacity: i32,
    pub status: i32,
    pub voltage_millivolts: i32,
    pub temperature_tenths_celsius: i32,
    pub current_microamps: i32,
    pub charge_counter_uah: i32,
    pub cycle_count: i32,
    pub technology: Seq<char>,
}

impl View for Battery {
    type V = BatteryView;

    open spec fn view(&self) -> BatteryView {
        BatteryView {
            present: self.present,
            capacity: self.capacity,
            status: self.status,
            voltage_millivolts: self.voltage_millivolts,
            temperature_tenths_celsius: self.temperature_tenths_celsius,
            current_microamps: self.current_microamps,
            charge_counter_uah: self.charge_counter_uah,
            cycle_count: self.cycle_count,
            technology: self.technology@,
        }
    }
}

/// An absent battery: nothing present, every number zero, and a status of
/// `UNKNOWN`, which is a value the enum has.
pub open spec fn absent_battery() -> BatteryView {
    BatteryView {
        present: false,
        capacity: 0,
        status: status::UNKNOWN,
        voltage_millivolts: 0,
        temperature_tenths_celsius: 0,
        current_microamps: 0,
        charge_counter_uah: 0,
        cycle_count: 0,
        technology: Seq::empty(),
    }
}

/// An int32 written as its bits.
pub open spec fn word(v: i32) -> Seq<u8> {
    le32(v as u32)
}

/// A boolean as the word a parcel writes for it.
pub open spec fn flag(b: bool) -> Seq<u8> {
    le32(if b { 1u32 } else { 0u32 })
}

/// `HealthInfo`'s fields, in the order its AIDL declaration lists them.
pub open spec fn health_fields(ac: bool, usb: bool, b: BatteryView) -> Seq<u8> {
    let head = flag(ac) + flag(usb) + flag(false) + flag(false) + word(0) + word(0) + word(b.status) + word(
        HEALTH_GOOD,
    ) + flag(b.present) + word(b.capacity) + word(b.voltage_millivolts) + word(
        b.temperature_tenths_celsius,
    ) + word(b.current_microamps) + word(b.cycle_count) + word(0) + word(b.charge_counter_uah);
    string16_after(head, b.technology) + word(b.current_microamps) + word(0) + word(0) + word(
        CAPACITY_LEVEL_UNKNOWN,
    ) + le64((-1i64) as u64) + word(0)
}

/// `HealthInfo` as a sized parcelable: a length that covers itself, then
/// the fields.
pub open spec fn health_info_bytes(ac: bool, usb: bool, b: BatteryView) -> Seq<u8> {
    word((health_fields(ac, usb, b).len() + 4) as i32) + health_fields(ac, usb, b)
}

/// The health service: the battery it reports and which supplies are
/// online.
pub struct Health {
    battery: Option<Battery>,
    ac_online: bool,
    usb_online: bool,
}

/// What a health service reports.
pub struct HealthView {
    pub battery: BatteryView,
    pub ac_online: bool,
    pub usb_online: bool,
}

impl View for Health {
    type V = HealthView;

    closed spec fn view(&self) -> HealthView {
        HealthView {
            battery: match self.battery {
                Some(b) => b@,
                None => absent_battery(),
            },
            ac_online: self.ac_online,
            usb_online: self.usb_online,
        }
    }
}

/// The charge status a supply's `status` file names: charging,
/// discharging, not charging or full, and unknown for anything else.
pub open spec fn charge_status_of(text: Seq<char>) -> i32 {
    if text == "Charging"@ {
        status::CHARGING
    } else if text == "Discharging"@ {
        status::DISCHARGING
    } else if text == "Not charging"@ {
        status::NOT_CHARGING
    } else if text == "Full"@ {
        status::FULL
    } else {
        status::UNKNOWN
    }
}

/// The charge status for the text of a supply's `status` file.
pub fn charge_status(text: &str) -> (r: i32)
    ensures
        r == charge_status_of(text@),
{
    if crate::text::same_text(text, "Charging") {
        status::CHARGING
    } else if crate::text::same_text(text, "Discharging") {
        status::DISCHARGING
    } else if crate::text::same_text(text, "Not charging") {
        status::NOT_CHARGING
    } else if crate::text::same_text(text, "Full") {
        status::FULL
    } else {
        status::UNKNOWN
    }
}

/// A technology name short enough that the answer's length fits its word.
pub open spec fn short_technology(b: BatteryView) -> bool {
    b.technology.len() < 0x1000_0000
}

impl Health {
    /// A service reporting this battery, or none, and the supplies.
    pub fn new(battery: Option<Battery>, ac_online: bool, usb_online: bool) -> (r: Health)
        ensures
            r@.battery == match battery {
                Some(b) => b@,
                None => absent_battery(),
            },
            r@.ac_online == ac_online,
            r@.usb_online == usb_online,
    {
        Health { battery, ac_online, usb_online }
    }

    /// The interface this object is.
    pub fn descriptor(&self) -> (r: &'static str)
        ensures
            r@ == DESCRIPTOR@,
    {
        DESCRIPTOR
    }

    /// The battery, or an absent one.
    fn present(&self) -> (b: Battery)
        ensures
            b@ == self@.battery,
    {
        match &self.battery {
            Some(b) => Battery {
                name: b.name.clone(),
                present: b.present,
                capacity: b.capacity,
                status: b.status,
                voltage_millivolts: b.voltage_millivolts,
                temperature_tenths_celsius: b.temperature_tenths_celsius,
                current_microamps: b.current_microamps,
                charge_counter_uah: b.charge_counter_uah,
                cycle_count: b.cycle_count,
                technology: b.technology.clone(),
                ac_online: b.ac_online,
                usb_online: b.usb_online,
            },
            None => Battery {
                name: String::new(),
                present: false,
                capacity: 0,
                status: status::UNKNOWN,
                voltage_millivolts: 0,
                temperature_tenths_celsius: 0,
                current_microamps: 0,
                charge_counter_uah: 0,
                cycle_count: 0,
                technology: String::new(),
                ac_online: false,
                usb_online: false,
            },
        }
    }

    fn health_info_fields(&self) -> (r: Vec<u8>)
        ensures
            r@ == health_fields(self@.ac_online, self@.usb_online, self@.battery),
    {
        let mut out = Parcel::new();
        let battery = self.present();
        out.boolean(self.ac_online);
        out.boolean(self.usb_online);
        out.boolean(false);
        out.boolean(false);
        out.i32(0);
        out.i32(0);
        out.i32(battery.status);
        out.i32(HEALTH_GOOD);
        out.boolean(battery.present);
        out.i32(battery.capacity);
        out.i32(battery.voltage_millivolts);
        out.i32(battery.temperature_tenths_celsius);
        out.i32(battery.current_microamps);
        out.i32(battery.cycle_count);
        out.i32(0);
        out.i32(battery.charge_counter_uah);
        out.string16(battery.technology.as_str());
        out.i32(battery.current_microamps);
        out.i32(0);
        out.i32(0);
        out.i32(CAPACITY_LEVEL_UNKNOWN);
        out.i64(-1);
        out.i32(0);
        out.into_bytes()
    }

    fn health_info(&self, out: &mut Parcel)
        requires
            short_technology(self@.battery),
        ensures
            final(out)@ == old(out)@ + health_info_bytes(self@.ac_online, self@.usb_online, self@.battery),
    {
        let body = self.health_info_fields();
        proof {
            lemma_fields_short(self@.ac_online, self@.usb_online, self@.battery);
        }
        out.i32(body.len() as i32 + 4);
        out.raw(body.as_slice());
    }

    /// The answer to a call: the whole state, each number alone, nothing for
    /// the registrations, empty arrays for storage and disks, and a refusal
    /// for the rest.
    pub fn transact(&mut self, code: u32, data: &[u8]) -> (a: Answer)
        requires
            short_technology(old(self)@.battery),
        ensures
            final(self)@ == old(self)@,
            a.objects@.len() == 0,
            a.calls@.len() == 0,
            a.fds@.len() == 0,
            a.data@ == health_reply(old(self)@, code),
    {
        let b = self.present();
        let mut reply = Parcel::new();
        if code == code::GET_HEALTH_INFO {
            reply.parcelable_present();
            self.health_info(&mut reply);
        } else if code == code::GET_CAPACITY {
            reply.i32(b.capacity);
        } else if code == code::GET_CHARGE_STATUS {
            reply.i32(b.status);
        } else if code == code::GET_CHARGE_COUNTER_UAH {
            reply.i32(b.charge_counter_uah);
        } else if code == code::GET_CURRENT_NOW_MICROAMPS || code == code::GET_CURRENT_AVERAGE_MICROAMPS {
            reply.i32(b.current_microamps);
        } else if code == code::GET_ENERGY_COUNTER_NWH {
            proof {
                lemma_energy_fits(b.charge_counter_uah, b.voltage_millivolts);
            }
            let micro_watt_hours = (b.charge_counter_uah as i64) * (b.voltage_millivolts as i64) / 1000;
            reply.i64(micro_watt_hours * 1000);
        } else if code == code::REGISTER_CALLBACK || code == code::UNREGISTER_CALLBACK || code == code::UPDATE {
        } else if code == code::GET_STORAGE_INFO || code == code::GET_DISK_STATS {
            reply.i32(0);
        } else {
            return Answer::of(refusal("IHealth", code));
        }
        let out = reply.into_bytes();
        assert(out@ =~= health_reply(old(self)@, code));
        Answer::of(out)
    }

    /// The same call, with the caller's handles for the objects among its
    /// arguments. A callback registration asks for one call back with the
    /// current state, as a real health HAL reports it on registering; the
    /// other calls are answered as [`Health::transact`] answers them.
    pub fn transact_with(&mut self, code: u32, data: &[u8], arguments: &[u32]) -> (a: Answer)
        requires
            short_technology(old(self)@.battery),
        ensures
            final(self)@ == old(self)@,
            code != code::REGISTER_CALLBACK ==> a.data@ == health_reply(old(self)@, code) && a.calls@.len() == 0,
            code == code::REGISTER_CALLBACK ==> {
                &&& a.data@.len() == 0
                &&& arguments@.len() == 0 ==> a.calls@.len() == 0
                &&& arguments@.len() > 0 ==> {
                    &&& a.calls@.len() == 1
                    &&& a.calls@[0].handle == arguments@[0]
                    &&& a.calls@[0].code == code::ON_HEALTH_INFO_CHANGED
                    &&& a.calls@[0].data@ == java_call_bytes(
                        CALLBACK@,
                        le32(1) + health_info_bytes(old(self)@.ac_online, old(self)@.usb_online, old(self)@.battery),
                    )
                }
            },
            a.objects@.len() == 0,
            a.fds@.len() == 0,
    {
        if code != code::REGISTER_CALLBACK {
            return self.transact(code, data);
        }
        let mut info = Parcel::new();
        self.health_info(&mut info);
        let mut args = Parcel::new();
        args.parcelable_present();
        let info_bytes = info.into_bytes();
        args.raw(info_bytes.as_slice());
        let args_bytes = args.into_bytes();
        assert(args_bytes@ =~= le32(1) + health_info_bytes(self@.ac_online, self@.usb_online, self@.battery));
        let call_data = java_call(CALLBACK, args_bytes.as_slice());
        let mut answer = Answer::of(Vec::new());
        if arguments.len() > 0 {
            answer.calls.push(PendingCall { handle: arguments[0], code: code::ON_HEALTH_INFO_CHANGED, data: call_data });
        }
        answer
    }
}

/// The reply a health service gives to a call.
pub open spec fn health_reply(h: HealthView, code: u32) -> Seq<u8> {
    let b = h.battery;
    if code == code::GET_HEALTH_INFO {
        le32(1) + health_info_bytes(h.ac_online, h.usb_online, b)
    } else if code == code::GET_CAPACITY {
        word(b.capacity)
    } else if code == code::GET_CHARGE_STATUS {
        word(b.status)
    } else if code == code::GET_CHARGE_COUNTER_UAH {
        word(b.charge_counter_uah)
    } else if code == code::GET_CURRENT_NOW_MICROAMPS || code == code::GET_CURRENT_AVERAGE_MICROAMPS {
        word(b.current_microamps)
    } else if code == code::GET_ENERGY_COUNTER_NWH {
        le64((div_toward_zero(b.charge_counter_uah as int * b.voltage_millivolts as int, 1000) * 1000) as i64 as u64)
    } else if code == code::REGISTER_CALLBACK || code == code::UNREGISTER_CALLBACK || code == code::UPDATE {
        Seq::empty()
    } else if code == code::GET_STORAGE_INFO || code == code::GET_DISK_STATS {
        word(0)
    } else {
        refusal_bytes("IHealth"@, code)
    }
}

proof fn lemma_fields_short(ac: bool, usb: bool, b: BatteryView)
    requires
        short_technology(b),
    ensures
        health_fields(ac, usb, b).len() + 4 <= i32::MAX,
{
    crate::text::lemma_utf16_len(b.technology);
    let u = crate::text::utf16(b.technology);
    crate::binder::parcel::lemma_le16_units_len(u);
}

/// Division as Rust does it on integers: toward zero.
pub open spec fn div_toward_zero(a: int, d: int) -> int {
    if a >= 0 {
        a / d
    } else {
        -((-a) / d)
    }
}

proof fn lemma_energy_fits(charge: i32, voltage: i32)
    ensures
        -0x4000_0000_0000_0000 <= (charge as int) * (voltage as int) <= 0x4000_0000_0000_0000,
{
    let c = charge as int;
    let v = voltage as int;
    assert(-0x8000_0000 <= c <= 0x7fff_ffff);
    assert(-0x8000_0000 <= v <= 0x7fff_ffff);
    assert(-0x4000_0000_0000_0000 <= c * v <= 0x4000_0000_0000_0000) by (nonlinear_arith)
        requires
            -0x8000_0000 <= c <= 0x7fff_ffff,
            -0x8000_0000 <= v <= 0x7fff_ffff,
    ;
}

impl Health {
    /// Whether the battery's technology name is short enough to answer with.
    pub fn answerable(&self) -> (r: bool)
        ensures
            r == short_technology(self@.battery),
    {
        match &self.battery {
            Some(b) => crate::text::chars_of(b.technology.as_str()).len() < 0x1000_0000,
            None => true,
        }
    }
}

impl BinderObject for Health {
    fn transact(&mut self, code: u32, data: &[u8]) -> Result<Answer, String> {
        if self.answerable() {
            Ok(Health::transact(self, code, data))
        } else {
            Err(crate::text::string_of(crate::text::chars_of("a battery technology name too long to answer with").as_slice()))
        }
    }

    fn transact_with(&mut self, code: u32, data: &[u8], arguments: &[u32]) -> Result<Answer, String> {
        if self.answerable() {
            Ok(Health::transact_with(self, code, data, arguments))
        } else {
            Err(crate::text::string_of(crate::text::chars_of("a battery technology name too long to answer with").as_slice()))
        }
    }

    fn descriptor(&self) -> String {
        let d = Health::descriptor(self);
        crate::text::string_of(crate::text::chars_of(d).as_slice())
    }
}

} // verus!
