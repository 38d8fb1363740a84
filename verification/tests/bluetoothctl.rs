use cyclo::bluetoothctl::{
    collect_devices, connected_devices, describe, find_device, merge_device, select_adapter,
    uuid_from_u16,
    Advertisement, BluetoothError, Sighting, BLUETOOTH_BASE_UUID, HEART_RATE_CHARACTERISTICS,
    HEART_RATE_MEASUREMENT_SHORT, HEART_RATE_SERVICE, HEART_RATE_SERVICE_SHORT,
};
use cyclo::device::{Device, MinorDeviceClass};
use cyclo::measurement::DecodeError;

fn seen(id: &str, name: Option<&str>, address: &str, connected: Option<bool>) -> Sighting {
    Sighting {
        id: String::from(id),
        properties: Some(Advertisement {
            local_name: name.map(String::from),
            address: String::from(address),
        }),
        is_connected: connected,
    }
}

fn unreadable(id: &str) -> Sighting {
    Sighting { id: String::from(id), properties: None, is_connected: Some(true) }
}

#[test]
fn uuid_of_a_short_identifier() {
    assert_eq!(uuid_from_u16(0x180D), 0x0000180d_0000_1000_8000_00805f9b34fb);
    assert_eq!(uuid_from_u16(0x2A37), 0x00002a37_0000_1000_8000_00805f9b34fb);
    assert_eq!(uuid_from_u16(0), BLUETOOTH_BASE_UUID);
    assert_eq!(uuid_from_u16(0xFFFF), 0x0000ffff_0000_1000_8000_00805f9b34fb);
    assert_eq!(uuid_from_u16(0x1122), 0x00001122_0000_1000_8000_00805f9b34fb);
}

#[test]
fn heart_rate_identifiers() {
    assert_eq!(HEART_RATE_SERVICE, uuid_from_u16(HEART_RATE_SERVICE_SHORT));
    assert_eq!(HEART_RATE_CHARACTERISTICS, uuid_from_u16(HEART_RATE_MEASUREMENT_SHORT));
    assert_eq!(HEART_RATE_SERVICE_SHORT, 0x180D);
    assert_eq!(HEART_RATE_MEASUREMENT_SHORT, 0x2A37);
}

#[test]
fn heart_rate_identifiers_are_those_of_the_uuid_crate() {
    let service = uuid::Uuid::parse_str("0000180d-0000-1000-8000-00805f9b34fb").unwrap();
    let characteristic = uuid::Uuid::parse_str("00002a37-0000-1000-8000-00805f9b34fb").unwrap();
    assert_eq!(uuid::Uuid::from_u128(HEART_RATE_SERVICE), service);
    assert_eq!(characteristic.as_u128(), HEART_RATE_CHARACTERISTICS);
}

#[test]
fn select_adapter_policy() {
    assert_eq!(select_adapter(0), Err(BluetoothError::NoAdaptersFound));
    assert_eq!(select_adapter(1), Ok(0));
    assert_eq!(select_adapter(2), Err(BluetoothError::MultipleAdaptersRequireSelection));
    assert_eq!(select_adapter(usize::MAX), Err(BluetoothError::MultipleAdaptersRequireSelection));
}

#[test]
fn error_messages() {
    assert_eq!(BluetoothError::NoAdaptersFound.message(), "Adapter not found");
    assert_eq!(
        BluetoothError::MultipleAdaptersRequireSelection.message(),
        "Several adapters found, select one"
    );
    assert_eq!(BluetoothError::NoPeripheralsFound.message(), "No peripherals found");
    assert_eq!(BluetoothError::ServiceNotFound.message(), "Heart Rate service not found");
    assert_eq!(
        BluetoothError::CharacteristicNotFound.message(),
        "Heart Rate characteristic not found"
    );
    assert_eq!(BluetoothError::PayloadTooShort.message(), "Payload too short");
    assert_eq!(BluetoothError::PayloadTruncated.message(), "Payload truncated");
    assert_eq!(
        BluetoothError::TransportError(String::from("link lost")).message(),
        "Unexpected error: link lost"
    );
    assert_eq!(BluetoothError::TransportError(String::new()).message(), "Unexpected error: ");
}

#[test]
fn decode_errors_have_their_place_among_the_failures() {
    assert_eq!(
        BluetoothError::from_decode_error(DecodeError::PayloadTooShort),
        BluetoothError::PayloadTooShort
    );
    assert_eq!(
        BluetoothError::from_decode_error(DecodeError::PayloadTruncated),
        BluetoothError::PayloadTruncated
    );
}

#[test]
fn describe_reads_the_advertisement() {
    let device = describe(&seen("polar", Some("Polar H10"), "AA:BB", Some(true))).unwrap();
    assert_eq!(
        device,
        Device::new(
            String::from("polar"),
            String::from("Polar H10"),
            String::from("AA:BB"),
            true,
            MinorDeviceClass::Unknown,
        )
    );
}

#[test]
fn describe_falls_back_where_values_are_missing() {
    let device = describe(&seen("polar", None, "AA:BB", None)).unwrap();
    assert_eq!(device.name, "unknown");
    assert!(!device.is_connected);
    assert_eq!(device.minor_device_class, MinorDeviceClass::Unknown);
    assert_eq!(describe(&unreadable("polar")), None);
}

#[test]
fn scan_without_peripherals_fails() {
    assert_eq!(collect_devices(&Vec::new()), Err(BluetoothError::NoPeripheralsFound));
}

#[test]
fn scan_reports_each_peripheral() {
    let devices = collect_devices(&vec![
        seen("polar", Some("one"), "01", Some(false)),
        seen("wahoo", None, "02", Some(true)),
    ])
    .unwrap();
    assert_eq!(devices.len(), 2);
    assert_eq!(devices[0].id, "polar");
    assert_eq!(devices[0].name, "one");
    assert_eq!(devices[1].id, "wahoo");
    assert_eq!(devices[1].name, "unknown");
    assert!(devices[1].is_connected);
}

#[test]
fn scan_deduplicates_by_identifier() {
    let devices = collect_devices(&vec![
        seen("polar", Some("early"), "01", Some(false)),
        seen("wahoo", Some("other"), "02", Some(false)),
        seen("polar", Some("late"), "01", Some(true)),
    ])
    .unwrap();
    assert_eq!(devices.len(), 2);
    assert_eq!(devices.iter().filter(|d| d.id == "polar").count(), 1);
    // The descriptor is updated in place with what was told last.
    assert_eq!(devices[0].id, "polar");
    assert_eq!(devices[0].name, "late");
    assert!(devices[0].is_connected);
    assert_eq!(devices[1].id, "wahoo");
}

#[test]
fn scan_leaves_out_what_cannot_be_read() {
    let devices = collect_devices(&vec![
        unreadable("ghost"),
        seen("polar", Some("one"), "01", Some(false)),
        unreadable("polar"),
    ])
    .unwrap();
    assert_eq!(devices.len(), 1);
    assert_eq!(devices[0].name, "one");

    let devices = collect_devices(&vec![unreadable("ghost")]).unwrap();
    assert!(devices.is_empty());
}

#[test]
fn find_and_merge_devices() {
    let mut devices = Vec::new();
    let first = describe(&seen("polar", Some("one"), "01", None)).unwrap();
    let second = describe(&seen("wahoo", Some("two"), "02", None)).unwrap();
    let again = describe(&seen("polar", Some("uno"), "01", None)).unwrap();
    assert_eq!(find_device(&devices, &String::from("polar")), None);
    merge_device(&mut devices, first);
    merge_device(&mut devices, second);
    assert_eq!(find_device(&devices, &String::from("polar")), Some(0));
    assert_eq!(find_device(&devices, &String::from("wahoo")), Some(1));
    assert_eq!(find_device(&devices, &String::from("garmin")), None);
    merge_device(&mut devices, again);
    assert_eq!(devices.len(), 2);
    assert_eq!(devices[0].name, "uno");
    assert_eq!(devices[1].name, "two");
}

#[test]
fn connected_devices_keeps_the_connected_in_order() {
    let devices = collect_devices(&vec![
        seen("polar", Some("one"), "01", Some(true)),
        seen("wahoo", Some("two"), "02", Some(false)),
        seen("garmin", Some("three"), "03", None),
        seen("suunto", Some("four"), "04", Some(true)),
    ])
    .unwrap();
    let connected = connected_devices(&devices);
    assert_eq!(connected.len(), 2);
    assert_eq!(connected[0], devices[0]);
    assert_eq!(connected[1], devices[3]);
    assert!(connected_devices(&Vec::new()).is_empty());
    assert!(connected_devices(&vec![devices[1].clone()]).is_empty());
}
