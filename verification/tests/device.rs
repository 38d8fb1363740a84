use cyclo::device::{
    binary_text, classify, hex_digit_value, parse_binary, parse_hex, Device, MajorDeviceClass,
    MajorServiceClass, MinorDeviceClass,
};

#[test]
fn get_major_service_class() {
    let test = 0x00240404;
    let binary = format!("{test:024b}");

    let major_service_class = MajorServiceClass::get(binary);

    assert!(major_service_class.contains(&MajorServiceClass::Audio));
}

#[test]
fn get_reads_the_first_eleven_digits_in_order() {
    let classes = MajorServiceClass::get(String::from("001001000000010000000100"));
    assert_eq!(classes, vec![MajorServiceClass::Audio, MajorServiceClass::Rendering]);
}

#[test]
fn get_names_every_service_flag() {
    let classes = MajorServiceClass::get(String::from("11111111111"));
    assert_eq!(
        classes,
        vec![
            MajorServiceClass::Information,
            MajorServiceClass::Telephony,
            MajorServiceClass::Audio,
            MajorServiceClass::ObjectTransfer,
            MajorServiceClass::Capturing,
            MajorServiceClass::Rendering,
            MajorServiceClass::Networking,
            MajorServiceClass::Positioning,
            MajorServiceClass::Reserved,
            MajorServiceClass::LimitedDiscoverableMode,
        ]
    );
}

#[test]
fn get_ignores_what_follows_the_service_digits() {
    let classes = MajorServiceClass::get(String::from("000000000001111111111111"));
    assert!(classes.is_empty());
}

#[test]
fn get_counts_characters_not_bytes_within_the_first_eleven_bytes() {
    // The first character takes two bytes, so the first eleven bytes hold
    // ten characters, and the digit `1` is the second of them: bit 22.
    let text = String::from("\u{e9}1000000001111");
    assert!(text.is_char_boundary(11));
    assert_eq!(MajorServiceClass::get(text), vec![MajorServiceClass::Telephony]);
}

#[test]
fn get_set_bits_counts_down_from_bit_23() {
    assert_eq!(MajorServiceClass::get_set_bits("00100100000"), vec![21, 18]);
    assert_eq!(MajorServiceClass::get_set_bits(""), Vec::<usize>::new());
    assert_eq!(MajorServiceClass::get_set_bits("000000000000000000000001"), vec![0]);
    assert_eq!(MajorServiceClass::get_set_bits("1x1"), vec![23, 21]);
}

#[test]
fn map_value_covers_bits_13_to_23() {
    assert_eq!(MajorServiceClass::map_value(23), MajorServiceClass::Information);
    assert_eq!(MajorServiceClass::map_value(22), MajorServiceClass::Telephony);
    assert_eq!(MajorServiceClass::map_value(21), MajorServiceClass::Audio);
    assert_eq!(MajorServiceClass::map_value(20), MajorServiceClass::ObjectTransfer);
    assert_eq!(MajorServiceClass::map_value(19), MajorServiceClass::Capturing);
    assert_eq!(MajorServiceClass::map_value(18), MajorServiceClass::Rendering);
    assert_eq!(MajorServiceClass::map_value(17), MajorServiceClass::Networking);
    assert_eq!(MajorServiceClass::map_value(16), MajorServiceClass::Positioning);
    assert_eq!(MajorServiceClass::map_value(15), MajorServiceClass::Reserved);
    assert_eq!(MajorServiceClass::map_value(14), MajorServiceClass::Reserved);
    assert_eq!(MajorServiceClass::map_value(13), MajorServiceClass::LimitedDiscoverableMode);
    assert_eq!(MajorServiceClass::map_value(12), MajorServiceClass::Unknow);
    assert_eq!(MajorServiceClass::map_value(24), MajorServiceClass::Unknow);
    assert_eq!(MajorServiceClass::map_value(0), MajorServiceClass::Unknow);
}

#[test]
fn map_values_keeps_each_flag_once() {
    let classes = MajorServiceClass::map_values(&vec![15, 14, 21, 15]);
    assert_eq!(classes, vec![MajorServiceClass::Reserved, MajorServiceClass::Audio]);
}

#[test]
fn holds_tells_membership() {
    let classes = vec![MajorServiceClass::Audio, MajorServiceClass::Rendering];
    assert!(MajorServiceClass::holds(&classes, MajorServiceClass::Rendering));
    assert!(!MajorServiceClass::holds(&classes, MajorServiceClass::Telephony));
    assert!(!MajorServiceClass::holds(&Vec::new(), MajorServiceClass::Audio));
}

#[test]
fn major_device_class_of_each_code() {
    assert_eq!(MajorDeviceClass::get("00000"), MajorDeviceClass::Miscellaneous);
    assert_eq!(MajorDeviceClass::get("00001"), MajorDeviceClass::Computer);
    assert_eq!(MajorDeviceClass::get("00010"), MajorDeviceClass::Phone);
    assert_eq!(MajorDeviceClass::get("00011"), MajorDeviceClass::LAN);
    assert_eq!(MajorDeviceClass::get("00100"), MajorDeviceClass::AudioVideo);
    assert_eq!(MajorDeviceClass::get("00101"), MajorDeviceClass::Peripheral);
    assert_eq!(MajorDeviceClass::get("00110"), MajorDeviceClass::Imaging);
    assert_eq!(MajorDeviceClass::get("00111"), MajorDeviceClass::Wearable);
    assert_eq!(MajorDeviceClass::get("01000"), MajorDeviceClass::Toy);
    assert_eq!(MajorDeviceClass::get("01001"), MajorDeviceClass::Health);
    assert_eq!(MajorDeviceClass::get("11111"), MajorDeviceClass::Uncategorized);
    assert_eq!(MajorDeviceClass::get("01010"), MajorDeviceClass::Other);
    assert_eq!(MajorDeviceClass::get("11110"), MajorDeviceClass::Other);
}

#[test]
fn major_device_class_of_other_texts_is_other() {
    assert_eq!(MajorDeviceClass::get(""), MajorDeviceClass::Other);
    assert_eq!(MajorDeviceClass::get("0000"), MajorDeviceClass::Other);
    assert_eq!(MajorDeviceClass::get("000001"), MajorDeviceClass::Other);
    assert_eq!(MajorDeviceClass::get("0000x"), MajorDeviceClass::Other);
    assert_eq!(MajorDeviceClass::get("00002"), MajorDeviceClass::Other);
    assert_eq!(MajorDeviceClass::map_value("01001"), MajorDeviceClass::Health);
    assert_eq!(MajorDeviceClass::map_value("1"), MajorDeviceClass::Other);
}

#[test]
fn minor_device_class_of_each_health_code() {
    let health = MajorDeviceClass::Health;
    assert_eq!(MinorDeviceClass::get("000000", health), MinorDeviceClass::Undefined);
    assert_eq!(MinorDeviceClass::get("000001", health), MinorDeviceClass::BloodPressureMonitor);
    assert_eq!(MinorDeviceClass::get("000010", health), MinorDeviceClass::Thermometer);
    assert_eq!(MinorDeviceClass::get("000011", health), MinorDeviceClass::WeighingScale);
    assert_eq!(MinorDeviceClass::get("000100", health), MinorDeviceClass::GlucoseMeter);
    assert_eq!(MinorDeviceClass::get("000101", health), MinorDeviceClass::PulseOximeter);
    assert_eq!(MinorDeviceClass::get("000110", health), MinorDeviceClass::HeartRateMonitor);
    assert_eq!(MinorDeviceClass::get("000111", health), MinorDeviceClass::HealthDataDisplay);
    assert_eq!(MinorDeviceClass::get("001000", health), MinorDeviceClass::Other);
    assert_eq!(MinorDeviceClass::get("111111", health), MinorDeviceClass::Other);
    assert_eq!(MinorDeviceClass::get("00110", health), MinorDeviceClass::Other);
    assert_eq!(MinorDeviceClass::get("", health), MinorDeviceClass::Other);
}

#[test]
fn minor_device_class_outside_health_is_not_supported() {
    assert_eq!(
        MinorDeviceClass::get("000110", MajorDeviceClass::AudioVideo),
        MinorDeviceClass::NotSupported
    );
    assert_eq!(
        MinorDeviceClass::get("junk", MajorDeviceClass::Wearable),
        MinorDeviceClass::NotSupported
    );
    assert_eq!(
        MinorDeviceClass::from_code(6, MajorDeviceClass::Other),
        MinorDeviceClass::NotSupported
    );
    assert_eq!(
        MinorDeviceClass::from_code(6, MajorDeviceClass::Health),
        MinorDeviceClass::HeartRateMonitor
    );
}

#[test]
fn parse_binary_reads_exactly_the_width() {
    assert_eq!(parse_binary("01001", 5), Some(9));
    assert_eq!(parse_binary("11111", 5), Some(31));
    assert_eq!(parse_binary("", 0), Some(0));
    assert_eq!(parse_binary("0100", 5), None);
    assert_eq!(parse_binary("010010", 5), None);
    assert_eq!(parse_binary("01 01", 5), None);
    assert_eq!(
        parse_binary("1111111111111111111111111111111", 31),
        Some(0x7fff_ffff)
    );
}

#[test]
fn classify_wearable_headphones() {
    let class = classify(0x00240404);
    assert_eq!(
        class.major_service_classes,
        vec![MajorServiceClass::Audio, MajorServiceClass::Rendering]
    );
    assert_eq!(class.major_device_class, MajorDeviceClass::AudioVideo);
    assert_eq!(class.minor_device_class, MinorDeviceClass::NotSupported);
}

#[test]
fn classify_heart_rate_monitor() {
    // Major class 9 (health) in bits 12 to 8, minor class 6 in bits 7 to 2.
    let class = classify(0x0000_0918);
    assert!(class.major_service_classes.is_empty());
    assert_eq!(class.major_device_class, MajorDeviceClass::Health);
    assert_eq!(class.minor_device_class, MinorDeviceClass::HeartRateMonitor);
}

#[test]
fn classify_zero_and_all_ones() {
    let zero = classify(0);
    assert!(zero.major_service_classes.is_empty());
    assert_eq!(zero.major_device_class, MajorDeviceClass::Miscellaneous);
    assert_eq!(zero.minor_device_class, MinorDeviceClass::NotSupported);

    let ones = classify(0x00ff_ffff);
    assert_eq!(ones.major_service_classes.len(), 10);
    assert_eq!(ones.major_service_classes[0], MajorServiceClass::Information);
    assert_eq!(ones.major_service_classes[8], MajorServiceClass::Reserved);
    assert_eq!(ones.major_service_classes[9], MajorServiceClass::LimitedDiscoverableMode);
    assert_eq!(ones.major_device_class, MajorDeviceClass::Uncategorized);
    assert_eq!(ones.minor_device_class, MinorDeviceClass::NotSupported);
}

#[test]
fn classify_reserved_bits_give_one_flag() {
    assert_eq!(classify(0x0000_8000).major_service_classes, vec![MajorServiceClass::Reserved]);
    assert_eq!(classify(0x0000_4000).major_service_classes, vec![MajorServiceClass::Reserved]);
    assert_eq!(classify(0x0000_c000).major_service_classes, vec![MajorServiceClass::Reserved]);
}

#[test]
fn classify_ignores_the_undefined_bits() {
    for class_bits in [0x00240404u32, 0x0000_0918, 0x00ff_ffff, 0x0012_3456, 0] {
        let plain = classify(class_bits & 0x00ff_fffc);
        for noise in [0x0000_0001u32, 0x0000_0002, 0x0000_0003, 0xff00_0000, 0x8000_0003] {
            assert_eq!(classify(class_bits | noise), plain);
        }
    }
}

#[test]
fn classify_health_minor_classes() {
    let expected = [
        MinorDeviceClass::Undefined,
        MinorDeviceClass::BloodPressureMonitor,
        MinorDeviceClass::Thermometer,
        MinorDeviceClass::WeighingScale,
        MinorDeviceClass::GlucoseMeter,
        MinorDeviceClass::PulseOximeter,
        MinorDeviceClass::HeartRateMonitor,
        MinorDeviceClass::HealthDataDisplay,
        MinorDeviceClass::Other,
    ];
    for (code, minor) in expected.iter().enumerate() {
        let class_bits = (9u32 << 8) | ((code as u32) << 2);
        assert_eq!(classify(class_bits).minor_device_class, *minor);
    }
    assert_eq!(classify((9 << 8) | (63 << 2)).minor_device_class, MinorDeviceClass::Other);
}

#[test]
fn binary_text_is_the_24_digit_writing() {
    for class_bits in [0u32, 1, 0x00240404, 0x0000_0918, 0x00ff_ffff, 0x0080_0000, 0x00ab_cdef] {
        assert_eq!(binary_text(class_bits), format!("{class_bits:024b}"));
    }
    assert_eq!(binary_text(0xff00_0001), "000000000000000000000001");
}

#[test]
fn digits_and_bits_agree() {
    for class_bits in [0u32, 0x00240404, 0x0000_0918, 0x00ff_ffff, 0x0012_3456, 0x00e0_c91c] {
        let text = binary_text(class_bits);
        let class = classify(class_bits);
        let major = MajorDeviceClass::get(&text[11..16]);
        assert_eq!(MajorServiceClass::get(text.clone()), class.major_service_classes);
        assert_eq!(major, class.major_device_class);
        assert_eq!(MinorDeviceClass::get(&text[16..22], major), class.minor_device_class);
        assert_eq!(MajorServiceClass::from_bits(class_bits), class.major_service_classes);
    }
}

#[test]
fn device_new_keeps_its_values() {
    let device = Device::new(
        String::from("hci0/dev_AA_BB"),
        String::from("Polar H10"),
        String::from("AA:BB:CC:DD:EE:FF"),
        true,
        MinorDeviceClass::HeartRateMonitor,
    );
    assert_eq!(device.id, "hci0/dev_AA_BB");
    assert_eq!(device.name, "Polar H10");
    assert_eq!(device.address, "AA:BB:CC:DD:EE:FF");
    assert!(device.is_connected);
    assert_eq!(device.minor_device_class, MinorDeviceClass::HeartRateMonitor);
    assert_eq!(device.duplicate(), device);
}

#[test]
fn hex_digits() {
    assert_eq!(hex_digit_value('0'), Some(0));
    assert_eq!(hex_digit_value('9'), Some(9));
    assert_eq!(hex_digit_value('a'), Some(10));
    assert_eq!(hex_digit_value('f'), Some(15));
    assert_eq!(hex_digit_value('A'), Some(10));
    assert_eq!(hex_digit_value('F'), Some(15));
    assert_eq!(hex_digit_value('g'), None);
    assert_eq!(hex_digit_value('G'), None);
    assert_eq!(hex_digit_value('/'), None);
    assert_eq!(hex_digit_value(':'), None);
    assert_eq!(hex_digit_value('@'), None);
    assert_eq!(hex_digit_value('`'), None);
    assert_eq!(hex_digit_value(' '), None);
    assert_eq!(hex_digit_value('\u{ff10}'), None);
}

#[test]
fn parse_hex_reads_one_to_eight_digits() {
    assert_eq!(parse_hex("00240404"), Some(0x00240404));
    assert_eq!(parse_hex("240404"), Some(0x240404));
    assert_eq!(parse_hex("0"), Some(0));
    assert_eq!(parse_hex("ffffffff"), Some(0xffff_ffff));
    assert_eq!(parse_hex("DeadBeef"), Some(0xdead_beef));
    assert_eq!(parse_hex(""), None);
    assert_eq!(parse_hex("000000000"), None);
    assert_eq!(parse_hex("0x240404"), None);
    assert_eq!(parse_hex("+1"), None);
    assert_eq!(parse_hex("12 4"), None);
    for value in [0u32, 1, 0x918, 0x00240404, 0x7fff_ffff, 0xffff_ffff] {
        assert_eq!(parse_hex(&format!("{:x}", value)), Some(value));
        assert_eq!(parse_hex(&format!("{:08X}", value)), Some(value));
    }
}

#[test]
fn get_class_of_hexadecimal_text() {
    assert_eq!(Device::get_class(String::from("00240404")), MinorDeviceClass::NotSupported);
    assert_eq!(Device::get_class(String::from("000918")), MinorDeviceClass::HeartRateMonitor);
    assert_eq!(Device::get_class(String::from("918")), MinorDeviceClass::HeartRateMonitor);
    assert_eq!(Device::get_class(String::from("00090C")), MinorDeviceClass::WeighingScale);
    assert_eq!(Device::get_class(String::from("900")), MinorDeviceClass::Undefined);
    assert_eq!(Device::get_class(String::from("9fc")), MinorDeviceClass::Other);
    assert_eq!(Device::get_class(String::from("")), MinorDeviceClass::Unknown);
    assert_eq!(Device::get_class(String::from("zz")), MinorDeviceClass::Unknown);
    assert_eq!(Device::get_class(String::from("123456789")), MinorDeviceClass::Unknown);
}
