use mosaic::device::apex::{apexes_from, build_version};
use mosaic::device::health::charge_status;
use mosaic::binder::parcel::{args_after, Parcel, Reader, BINDER_TYPE_HANDLE};
use mosaic::binder::{Handed, Hosted, EX_UNSUPPORTED_OPERATION};
use mosaic::device::apex::{code as apex_code, Apex, ApexService};
use mosaic::device::health::{code as health_code, status, Battery, Health, CAPACITY_LEVEL_UNKNOWN, HEALTH_GOOD};
use mosaic::device::suspend::{
    control, hal, internal, wakelock, SuspendControl, SuspendControlInternal, SystemSuspend,
    WakeLock, SUSPEND_CONTROL, SUSPEND_INFO_FIELDS, SYSTEM_SUSPEND, WAKE_LOCK,
};

fn request(descriptor: &str, args: &[u8]) -> Vec<u8> {
    let mut data = vec![0x00, 0x00, 0x00, 0x80, 0xff, 0xff, 0xff, 0xff];
    data.extend_from_slice(b"TSYS");
    let count = (descriptor.len() + 1) as i32;
    data.extend_from_slice(&count.to_le_bytes());
    for unit in descriptor.encode_utf16() {
        data.extend_from_slice(&unit.to_le_bytes());
    }
    data.extend_from_slice(&[0, 0]);
    while data.len() % 4 != 0 {
        data.push(0);
    }
    data.extend_from_slice(args);
    data
}

fn apex_service() -> ApexService {
    ApexService::new(vec![
        Apex {
            module_name: "com.android.extservices".to_string(),
            location: "/system/apex/com.android.extservices".to_string(),
            version_code: 0x2100_0000,
            version_name: "TQ3A.230901.001".to_string(),
        },
        Apex {
            module_name: "com.android.i18n".to_string(),
            location: "/system/apex/com.android.i18n".to_string(),
            version_code: 0x2100_0000,
            version_name: "TQ3A.230901.001".to_string(),
        },
    ])
}

#[test]
fn the_active_packages_are_the_apexes_it_carries() {
    let mut service = apex_service();
    let reply = service.transact(apex_code::GET_ACTIVE_PACKAGES, &[]).data;
    let mut reader = Reader::new(&reply);
    assert_eq!(reader.i32(), 2);
    assert_eq!(reader.string().as_deref(), Some("com.android.extservices"));
    assert_eq!(reader.string().as_deref(), Some("/system/apex/com.android.extservices"));
    assert_eq!(reader.string().as_deref(), Some("/system/apex/com.android.extservices"));
    assert_eq!(reader.i64(), 0x2100_0000);
    assert_eq!(reader.string().as_deref(), Some("TQ3A.230901.001"));
    assert_eq!(reader.i32(), 1);
    assert_eq!(reader.i32(), 1);
    assert_eq!(reader.i32(), 0);
    assert_eq!(reader.i32(), 0);
}

#[test]
fn one_apex_can_be_asked_for_by_name() {
    let mut service = apex_service();
    let mut args = Parcel::new();
    args.string16("com.android.i18n");
    let reply = service.transact(apex_code::GET_ACTIVE_PACKAGE, &args.into_bytes()).data;
    let mut reader = Reader::new(&reply);
    assert_eq!(reader.i32(), 1);
    assert_eq!(reader.string().as_deref(), Some("com.android.i18n"));

    let mut args = Parcel::new();
    args.string16("com.android.nothing");
    let reply = service.transact(apex_code::GET_ACTIVE_PACKAGE, &args.into_bytes()).data;
    let mut reader = Reader::new(&reply);
    assert_eq!(reader.i32(), 0);
    assert_eq!(reader.i32(), 0);
}

#[test]
fn the_update_machinery_is_refused_by_name() {
    let mut service = apex_service();
    let reply = service.transact(1, &[]).data;
    let mut reader = Reader::new(&reply);
    assert_eq!(reader.i32(), EX_UNSUPPORTED_OPERATION);
    assert!(reader.string().unwrap_or_default().contains("IApexService method 1"));
}

#[test]
fn arguments_are_found_after_the_token() {
    let data = request(SUSPEND_CONTROL, &[7, 0, 0, 0]);
    assert_eq!(args_after(&data, SUSPEND_CONTROL), &[7, 0, 0, 0]);
    assert_eq!(args_after(&data, SYSTEM_SUSPEND), &[] as &[u8]);
}

#[test]
fn register_callback_answers_that_it_is_registered() {
    let mut service = SuspendControl;
    let data = request(SUSPEND_CONTROL, &[0; 28]);
    let reply = service.transact(control::REGISTER_CALLBACK, &data).data;
    assert_eq!(reply, vec![1, 0, 0, 0], "the value alone");
}

#[test]
fn autosuspend_is_reported_enabled_and_a_forced_suspend_is_not_claimed() {
    let mut service = SuspendControlInternal;
    let enabled = service.transact(internal::ENABLE_AUTOSUSPEND, &[]).data;
    assert_eq!(enabled, vec![1, 0, 0, 0], "the value alone");
    let forced = service.transact(internal::FORCE_SUSPEND, &[]).data;
    assert_eq!(forced, vec![0, 0, 0, 0], "four bytes, and no status in front");
}

#[test]
fn statistics_are_empty_rather_than_absent() {
    let mut service = SuspendControlInternal;
    let locks = service.transact(internal::GET_WAKELOCK_STATS, &[]).data;
    assert_eq!(locks, vec![0, 0, 0, 0], "the value alone");
    let stats = service.transact(internal::GET_SUSPEND_STATS, &[]).data;
    assert_eq!(stats.len(), 4 + SUSPEND_INFO_FIELDS * 8);
    assert_eq!(&stats[..4], &[1, 0, 0, 0], "the value alone");
    assert!(stats[8..].iter().all(|byte| *byte == 0));
}

#[test]
fn a_wake_lock_is_handed_back_as_an_object() {
    let mut service = SystemSuspend::new();
    let answer = service.transact(hal::ACQUIRE_WAKE_LOCK, &[]);
    assert_eq!(answer.data.len(), 28, "24 bytes and the stability word");
    assert_eq!(answer.objects.len(), 1);
    assert_eq!(answer.objects[0].offset, 0);
    assert_eq!(&answer.data[..4], &BINDER_TYPE_HANDLE.to_le_bytes());
    let Handed::New { object: lock, .. } = &answer.objects[0].object else {
        panic!("the wake lock has to be an object the broker has not seen yet")
    };
    assert_eq!(*lock, Hosted::WakeLock);
    assert_eq!(WakeLock.descriptor(), WAKE_LOCK);
}

#[test]
fn releasing_a_wake_lock_is_counted_and_answered_with_nothing() {
    let mut service = SystemSuspend::new();
    let answer = service.transact(hal::ACQUIRE_WAKE_LOCK, &[]);
    let Handed::New { object: Hosted::WakeLock, .. } = &answer.objects[0].object else {
        panic!("expected a lock")
    };
    let mut lock = WakeLock;
    let reply = lock.transact(wakelock::RELEASE, &[]);
    assert!(reply.data.is_empty());
    service.note_release();
    assert_eq!(service.released(), 1);
    let reply = lock.transact(9, &[]).data;
    assert_eq!(&reply[..4], &EX_UNSUPPORTED_OPERATION.to_le_bytes());
}

fn health_service() -> Health {
    Health::new(
        Some(Battery {
            name: "BAT1".to_string(),
            present: true,
            capacity: 78,
            status: status::DISCHARGING,
            voltage_millivolts: 12000,
            temperature_tenths_celsius: 305,
            current_microamps: -900000,
            charge_counter_uah: 3500000,
            cycle_count: 120,
            technology: "Li-ion".to_string(),
            ac_online: false,
            usb_online: false,
        }),
        false,
        true,
    )
}

#[test]
fn the_health_info_has_the_fields_the_aidl_declares() {
    let mut service = health_service();
    let reply = service.transact(health_code::GET_HEALTH_INFO, &[]).data;
    let mut reader = Reader::new(&reply);
    assert_eq!(reader.i32(), 1);
    assert_eq!(reader.i32() as usize, reply.len() - 4);
    assert_eq!(reader.i32(), 0);
    assert_eq!(reader.i32(), 1);
    assert_eq!(reader.i32(), 0);
    assert_eq!(reader.i32(), 0);
    assert_eq!(reader.i32(), 0);
    assert_eq!(reader.i32(), 0);
    assert_eq!(reader.i32(), status::DISCHARGING);
    assert_eq!(reader.i32(), HEALTH_GOOD);
    assert_eq!(reader.i32(), 1);
    assert_eq!(reader.i32(), 78);
    assert_eq!(reader.i32(), 12000);
    assert_eq!(reader.i32(), 305);
    assert_eq!(reader.i32(), -900000);
    assert_eq!(reader.i32(), 120);
    assert_eq!(reader.i32(), 0);
    assert_eq!(reader.i32(), 3500000);
    assert_eq!(reader.string().as_deref(), Some("Li-ion"));
    assert_eq!(reader.i32(), -900000);
    assert_eq!(reader.i32(), 0);
    assert_eq!(reader.i32(), 0);
    assert_eq!(reader.i32(), CAPACITY_LEVEL_UNKNOWN);
    assert_eq!(reader.i64(), -1);
    assert_eq!(reader.i32(), 0);
}

#[test]
fn the_cheap_readers_answer_the_same_battery() {
    let mut service = health_service();
    for (code, expected) in [
        (health_code::GET_CAPACITY, 78),
        (health_code::GET_CHARGE_STATUS, status::DISCHARGING),
        (health_code::GET_CHARGE_COUNTER_UAH, 3500000),
        (health_code::GET_CURRENT_NOW_MICROAMPS, -900000),
    ] {
        let reply = service.transact(code, &[]).data;
        let mut reader = Reader::new(&reply);
        assert_eq!(reader.i32(), expected, "method {code}");
    }
    let reply = service.transact(health_code::GET_ENERGY_COUNTER_NWH, &[]).data;
    assert_eq!(Reader::new(&reply).i64(), 3500000i64 * 12000 / 1000 * 1000);
}

#[test]
fn a_machine_with_no_battery_says_so_rather_than_guessing() {
    let mut service = Health::new(None, true, false);
    let reply = service.transact(health_code::GET_HEALTH_INFO, &[]).data;
    let mut reader = Reader::new(&reply);
    assert_eq!(reader.i32(), 1);
    assert_eq!(reader.i32() as usize, reply.len() - 4);
    assert_eq!(reader.i32(), 1);
    assert_eq!(reader.i32(), 0);
    assert_eq!(reader.i32(), 0);
    assert_eq!(reader.i32(), 0);
    assert_eq!(reader.i32(), 0);
    assert_eq!(reader.i32(), 0);
    assert_eq!(reader.i32(), status::UNKNOWN);
    assert_eq!(reader.i32(), HEALTH_GOOD);
    assert_eq!(reader.i32(), 0);
}

#[test]
fn the_rest_is_refused_by_name() {
    let mut service = health_service();
    let reply = service.transact(99, &[]).data;
    let mut reader = Reader::new(&reply);
    assert_eq!(reader.i32(), EX_UNSUPPORTED_OPERATION);
    assert!(reader.string().unwrap_or_default().contains("IHealth method 99"));
}

#[test]
fn a_registered_callback_is_called_back_with_the_state() {
    let mut service = health_service();
    let answer = service.transact_with(health_code::REGISTER_CALLBACK, &[], &[42]);
    assert!(answer.data.is_empty());
    assert_eq!(answer.calls.len(), 1);
    assert_eq!(answer.calls[0].handle, 42);
    assert_eq!(answer.calls[0].code, health_code::ON_HEALTH_INFO_CHANGED);
    let args = args_after(&answer.calls[0].data, "android.hardware.health.IHealthInfoCallback");
    assert_eq!(&args[..4], &1i32.to_le_bytes());
    let nobody = service.transact_with(health_code::REGISTER_CALLBACK, &[], &[]);
    assert!(nobody.calls.is_empty());
}

#[test]
fn a_supplys_status_file_names_its_charge_status() {
    assert_eq!(charge_status("Charging"), status::CHARGING);
    assert_eq!(charge_status("Discharging"), status::DISCHARGING);
    assert_eq!(charge_status("Not charging"), status::NOT_CHARGING);
    assert_eq!(charge_status("Full"), status::FULL);
    assert_eq!(charge_status("charging"), status::UNKNOWN);
    assert_eq!(charge_status(""), status::UNKNOWN);
}

#[test]
fn the_bundles_build_gives_every_apex_its_version() {
    let prop = "# build\nro.build.id=TQ3A.230901.001\nro.build.version.sdk=33\n";
    assert_eq!(build_version(Some(prop)), (33i64 << 24, "TQ3A.230901.001".to_string()));
    assert_eq!(build_version(None), (33i64 << 24, "unknown".to_string()));
    assert_eq!(build_version(Some("ro.build.version.sdk=x\n")), (33i64 << 24, "unknown".to_string()));
    assert_eq!(build_version(Some("  ro.build.version.sdk= 34 \n")).0, 34i64 << 24);
    let apexes = apexes_from(vec!["com.b".to_string(), "com.a".to_string()], 7, "v");
    assert_eq!(apexes.len(), 2);
    assert_eq!(apexes[0].module_name, "com.a");
    assert_eq!(apexes[0].location, "/system/apex/com.a");
    assert_eq!(apexes[1].module_name, "com.b");
    assert_eq!(apexes[1].version_code, 7);
    assert_eq!(apexes[1].version_name, "v");
}
