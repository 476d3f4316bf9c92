use hidlights::names::{choose_name, device_string, digit_text, push_decimal, with_position};
use hidlights::usage::{standard_page, vendor_entry};
use hidlights::{
    indexed_name, is_vendor_usage, parent_name, usage_name, DeviceInfo, DeviceStrings,
    HidLightError, Usage,
};

#[test]
fn strings_are_found_by_index() {
    let mut strings = DeviceStrings::new();
    assert_eq!(strings.lookup(1), None);
    strings.insert(1, "one".to_string());
    strings.insert(0xFFFF_FFFF, "last".to_string());
    assert_eq!(strings.lookup(1), Some("one".to_string()));
    assert_eq!(strings.lookup(0xFFFF_FFFF), Some("last".to_string()));
    assert_eq!(strings.lookup(2), None);
    assert_eq!(device_string(&strings, Some(1)), Some("one".to_string()));
    assert_eq!(device_string(&strings, Some(3)), None);
    assert_eq!(device_string(&strings, None), None);
}

#[test]
fn the_first_string_under_an_index_stays() {
    let mut strings = DeviceStrings::new();
    strings.insert(1, "first".to_string());
    strings.insert(1, "second".to_string());
    strings.insert(2, "other".to_string());
    assert_eq!(strings.lookup(1), Some("first".to_string()));
    assert_eq!(strings.lookup(2), Some("other".to_string()));
}

#[test]
fn decimal_suffixes() {
    let cases: Vec<(usize, &str)> = vec![
        (0, "x 0"),
        (7, "x 7"),
        (9, "x 9"),
        (10, "x 10"),
        (99, "x 99"),
        (100, "x 100"),
        (4_294_967_295, "x 4294967295"),
    ];
    for (position, expected) in cases {
        assert_eq!(with_position("x".to_string(), position), expected);
    }
    assert_eq!(with_position(String::new(), 3), " 3");
    let mut text = "n=".to_string();
    push_decimal(&mut text, 1203);
    assert_eq!(text, "n=1203");
    assert_eq!(digit_text(0), "0");
    assert_eq!(digit_text(9), "9");
}

#[test]
fn names_are_tried_in_order() {
    let device = Some("device".to_string());
    let table = Some("table".to_string());
    assert_eq!(choose_name(device.clone(), table.clone()), device);
    assert_eq!(choose_name(device.clone(), None), device);
    assert_eq!(choose_name(None, table.clone()), table);
    assert_eq!(choose_name(None, None), None);
}

#[test]
fn indexed_name_falls_back_to_the_usage_tables() {
    let mut strings = DeviceStrings::new();
    strings.insert(2, "Logo".to_string());
    let caps_lock = Usage { page: 8, id: 2 };
    let unknown = Usage { page: 8, id: 0xFFFF };
    assert_eq!(indexed_name(Some(2), &strings, caps_lock), Some("Logo".to_string()));
    assert_eq!(indexed_name(Some(3), &strings, caps_lock), Some("Caps Lock".to_string()));
    assert_eq!(indexed_name(None, &strings, caps_lock), Some("Caps Lock".to_string()));
    assert_eq!(indexed_name(Some(2), &strings, unknown), Some("Logo".to_string()));
    assert_eq!(indexed_name(None, &strings, unknown), None);
}

#[test]
fn parent_name_of_a_collection() {
    let mut strings = DeviceStrings::new();
    strings.insert(1, "Panel".to_string());
    let keyboard = Usage { page: 1, id: 6 };
    assert_eq!(parent_name(None, &strings), None);
    assert_eq!(parent_name(Some((Some(1), keyboard)), &strings), Some("Panel".to_string()));
    assert_eq!(parent_name(Some((Some(2), keyboard)), &strings), Some("Keyboard".to_string()));
    assert_eq!(parent_name(Some((None, keyboard)), &strings), Some("Keyboard".to_string()));
    assert_eq!(parent_name(Some((None, Usage { page: 0, id: 0 })), &strings), None);
}

#[test]
fn usage_names_come_from_the_usage_tables() {
    assert_eq!(usage_name(Usage { page: 1, id: 2 }), Some("Mouse".to_string()));
    assert_eq!(usage_name(Usage { page: 8, id: 0x4B }), Some("Generic Indicator".to_string()));
    assert_eq!(usage_name(Usage { page: 9, id: 4 }), Some("Button 4".to_string()));
    assert_eq!(usage_name(Usage { page: 0xFF0D, id: 1 }), Some("Wacom Digitizer".to_string()));
    assert_eq!(usage_name(Usage { page: 8, id: 0xFFFF }), None);
    assert_eq!(usage_name(Usage { page: 0, id: 1 }), None);
}

#[test]
fn vendor_usages() {
    assert!(!is_vendor_usage(Usage { page: 1, id: 2 }));
    assert!(!is_vendor_usage(Usage { page: 0x59, id: 1 }));
    assert!(is_vendor_usage(Usage { page: 0xFF00, id: 2 }));
    assert!(is_vendor_usage(Usage { page: 0x13, id: 2 }));
    assert!(is_vendor_usage(Usage { page: 1, id: 0xFFFF }));
}

#[test]
fn standard_pages_are_a_closed_list() {
    let standard: Vec<u16> = vec![
        0x01, 0x02, 0x03, 0x04, 0x05, 0x06, 0x07, 0x08, 0x09, 0x0A, 0x0B, 0x0C, 0x0D, 0x0E, 0x0F,
        0x10, 0x11, 0x12, 0x14, 0x20, 0x40, 0x41, 0x59, 0x80, 0x81, 0x82, 0x84, 0x85, 0x8C, 0x8D,
        0x8E, 0x90, 0x91, 0xF1D0, 0xFF0D,
    ];
    let mut count = 0;
    for page in 0..=u16::MAX {
        assert_eq!(standard_page(page), standard.contains(&page));
        if standard_page(page) {
            count += 1;
        }
    }
    assert_eq!(count, 35);
}

#[test]
fn an_entry_decides_whether_a_usage_is_hidden() {
    assert!(vendor_entry(&None));
    assert!(vendor_entry(&Some((0xFF00, "Vendor".to_string()))));
    assert!(vendor_entry(&Some((0x13, "Reserved".to_string()))));
    assert!(!vendor_entry(&Some((0x08, "LED".to_string()))));
}

#[test]
fn device_info_drops_empty_strings() {
    let info = DeviceInfo::new(
        0x046D,
        0xC52B,
        Some("Receiver".to_string()),
        Some(String::new()),
        None,
        Usage { page: 1, id: 6 },
        b"/dev/hidraw0".to_vec(),
    );
    assert_eq!(info.vid, 0x046D);
    assert_eq!(info.pid, 0xC52B);
    assert_eq!(info.name.as_deref(), Some("Receiver"));
    assert_eq!(info.manufacturer, None);
    assert_eq!(info.serial, None);
    assert_eq!(info.usage.as_deref(), Some("Keyboard"));
    assert_eq!(info.path, b"/dev/hidraw0".to_vec());
    let other = DeviceInfo::new(
        1,
        2,
        Some(String::new()),
        Some("Maker".to_string()),
        Some("S-1".to_string()),
        Usage { page: 0xFF00, id: 1 },
        vec![],
    );
    assert_eq!(other.name, None);
    assert_eq!(other.manufacturer.as_deref(), Some("Maker"));
    assert_eq!(other.serial.as_deref(), Some("S-1"));
    assert_eq!(other.usage.as_deref(), Some("Vendor Usage 0x01"));
    let unknown = DeviceInfo::new(1, 2, None, None, None, Usage { page: 0, id: 0 }, vec![]);
    assert_eq!(unknown.usage, None);
}

#[test]
fn errors_say_what_failed() {
    let transport = HidLightError::HidApi("no such device".to_string());
    assert!(transport.is_transport());
    assert_eq!(transport.message(), "HIDAPI Failure");
    let descriptor = HidLightError::DescriptorError;
    assert!(!descriptor.is_transport());
    assert_eq!(descriptor.message(), "Descriptor parse error");
    assert_ne!(transport, descriptor);
}
