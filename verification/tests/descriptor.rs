use hidlights::descriptor::{digit, index_from_text, is_within_limits, with_string_index};
use hidlights::{
    build_reports, encode, parse_output_reports, string_indices, DeviceStrings, HidLightError,
    OutputField, Usage, VariableField, LEVEL_ONE,
};

const BOOT_KEYBOARD: &[u8] = &[
    0x05, 0x01, 0x09, 0x06, 0xa1, 0x01, 0x75, 0x01, 0x95, 0x08, 0x05, 0x07, 0x19, 0xE0, 0x29,
    0xE7, 0x15, 0x00, 0x25, 0x01, 0x81, 0x02, 0x95, 0x01, 0x75, 0x08, 0x81, 0x03, 0x95, 0x05,
    0x75, 0x01, 0x05, 0x08, 0x19, 0x01, 0x29, 0x05, 0x91, 0x02, 0x95, 0x01, 0x75, 0x03, 0x91,
    0x02, 0x95, 0x06, 0x75, 0x08, 0x15, 0x00, 0x26, 0xff, 0x00, 0x05, 0x07, 0x19, 0x00, 0x2a,
    0xff, 0x00, 0x81, 0x00, 0xc0,
];

// One report, number 3: a brightness of eight bits with the device's string
// 4, a vendor field of eight bits, and an array of eight bits over two LEDs.
const LAMP: &[u8] = &[
    0x05, 0x08, 0xa1, 0x01, 0x85, 0x03, 0x15, 0x00, 0x26, 0xff, 0x00, 0x75, 0x08, 0x95, 0x01,
    0x09, 0x4b, 0x79, 0x04, 0x91, 0x02, 0x06, 0x00, 0xff, 0x09, 0x01, 0x91, 0x02, 0x05, 0x08,
    0x09, 0x01, 0x09, 0x02, 0x91, 0x00, 0xc0,
];

#[test]
fn boot_keyboard_declares_five_leds_and_padding() {
    let layout = parse_output_reports(BOOT_KEYBOARD).unwrap();
    assert_eq!(layout.len(), 1);
    assert_eq!(layout[0].report_id, None);
    assert_eq!(layout[0].size_in_bits, 8);
    assert_eq!(layout[0].fields.len(), 6);
    for (i, field) in layout[0].fields.iter().take(5).enumerate() {
        match field {
            OutputField::Variable(f) => {
                assert_eq!(f.bits, (i as u32)..(i as u32 + 1));
                assert_eq!(f.usage, Usage { page: 8, id: i as u16 + 1 });
                assert_eq!(f.logical_minimum, 0);
                assert_eq!(f.logical_maximum, 1);
                assert_eq!(f.string_index, None);
                assert!(f.variable);
            }
            _ => panic!("field {} is no variable field", i),
        }
    }
    assert!(matches!(&layout[0].fields[5], OutputField::Padding(p) if p.bits == (5..8)));
    assert!(layout[0].is_well_laid_out());
    assert!(string_indices(&layout).is_empty());
}

#[test]
fn boot_keyboard_leds_become_toggles() {
    let layout = parse_output_reports(BOOT_KEYBOARD).unwrap();
    let mut reports = build_reports(&layout, &DeviceStrings::new());
    assert_eq!(reports.len(), 1);
    assert_eq!(reports[0].id(), 0);
    let names: Vec<&str> = reports[0].outputs.iter().map(|o| o.name.as_deref().unwrap()).collect();
    assert_eq!(names, vec!["Num Lock", "Caps Lock", "Scroll Lock", "Compose", "Kana"]);
    assert!(reports[0].outputs.iter().all(|o| o.is_toggle()));
    assert_eq!(encode(&reports[0]), vec![0x00]);
    reports[0].outputs[1].real_value = LEVEL_ONE;
    assert_eq!(encode(&reports[0]), vec![0x40]);
    reports[0].outputs[4].real_value = LEVEL_ONE;
    assert_eq!(encode(&reports[0]), vec![0x48]);
}

#[test]
fn lamp_fields_carry_their_string_index_and_lists() {
    let layout = parse_output_reports(LAMP).unwrap();
    assert_eq!(layout.len(), 1);
    assert_eq!(layout[0].report_id, Some(3));
    assert_eq!(layout[0].size_in_bits, 24);
    assert_eq!(layout[0].fields.len(), 3);
    match &layout[0].fields[0] {
        OutputField::Variable(f) => {
            assert_eq!(f.bits, 0..8);
            assert_eq!(f.usage, Usage { page: 8, id: 0x4b });
            assert_eq!(f.logical_maximum, 255);
            assert_eq!(f.string_index, Some(4));
        }
        _ => panic!("the first field is no variable field"),
    }
    match &layout[0].fields[1] {
        OutputField::Variable(f) => {
            assert_eq!(f.bits, 8..16);
            assert_eq!(f.usage, Usage { page: 0xff00, id: 1 });
            assert_eq!(f.string_index, None);
        }
        _ => panic!("the second field is no variable field"),
    }
    match &layout[0].fields[2] {
        OutputField::Array(f) => {
            assert_eq!(f.bits, 16..24);
            assert_eq!(f.usage_list, vec![Usage { page: 8, id: 1 }, Usage { page: 8, id: 2 }]);
            assert!(f.string_list.is_empty());
            assert!(f.designator_list.is_empty());
            assert_eq!(f.logical_minimum, 0);
            assert_eq!(f.logical_maximum, 255);
        }
        _ => panic!("the third field is no array field"),
    }
    assert_eq!(string_indices(&layout), vec![4]);
}

#[test]
fn lamp_is_built_and_sent() {
    let layout = parse_output_reports(LAMP).unwrap();
    let mut strings = DeviceStrings::new();
    strings.insert(4, "Glow".to_string());
    let mut reports = build_reports(&layout, &strings);
    assert_eq!(reports.len(), 1);
    assert_eq!(reports[0].id(), 3);
    let names: Vec<&str> = reports[0].outputs.iter().map(|o| o.name.as_deref().unwrap()).collect();
    assert_eq!(names, vec!["Glow", "Num Lock 0", "Caps Lock 1"]);
    let bits: Vec<_> = reports[0].outputs.iter().map(|o| o.bits()).collect();
    assert_eq!(bits, vec![0..8, 16..20, 20..24]);
    reports[0].outputs[2].real_value = LEVEL_ONE;
    assert_eq!(encode(&reports[0]), vec![0x03, 0x00, 0x0F]);
}

#[test]
fn a_descriptor_without_output_reports() {
    assert!(parse_output_reports(&[]).unwrap().is_empty());
    let input_only: &[u8] =
        &[0x05, 0x01, 0x09, 0x30, 0x15, 0x00, 0x25, 0x01, 0x75, 0x01, 0x95, 0x01, 0x81, 0x02];
    assert!(parse_output_reports(input_only).unwrap().is_empty());
}

#[test]
fn a_descriptor_that_cannot_be_read() {
    assert_eq!(parse_output_reports(&[0x05]).unwrap_err(), HidLightError::DescriptorError);
    assert_eq!(parse_output_reports(&[0xFC]).unwrap_err(), HidLightError::DescriptorError);
    assert_eq!(parse_output_reports(&[0xB4]).unwrap_err(), HidLightError::DescriptorError);
    assert_eq!(parse_output_reports(&[0xA9, 0x01]).unwrap_err(), HidLightError::DescriptorError);
}

// A padding item of 64 fields of 2^24 bits each: 2^30 bits.
const QUARTER: &[u8] = &[0x77, 0x00, 0x00, 0x00, 0x01, 0x95, 0x40, 0x91, 0x02];

// A padding item that fills a report of its own to the last bit.
const FULL: &[u8] = &[0x75, 0x01, 0x97, 0xff, 0xff, 0xff, 0xff, 0x91, 0x02];

fn joined(parts: &[&[u8]]) -> Vec<u8> {
    parts.iter().flat_map(|part| part.iter().copied()).collect()
}

#[test]
fn a_report_that_outgrows_32_bits_is_turned_away() {
    let three = joined(&[QUARTER, &[0x91, 0x02, 0x91, 0x02]]);
    assert!(is_within_limits(&three));
    let layout = parse_output_reports(&three).unwrap();
    assert_eq!(layout.len(), 1);
    assert_eq!(layout[0].fields.len(), 3);
    assert_eq!(layout[0].size_in_bits, 0xC000_0000);
    assert!(matches!(&layout[0].fields[2], OutputField::Padding(p) if p.bits == (0x8000_0000..0xC000_0000)));
    assert!(layout[0].is_well_laid_out());

    let four = joined(&[&three, &[0x91, 0x02]]);
    assert!(!is_within_limits(&four));
    assert_eq!(parse_output_reports(&four).unwrap_err(), HidLightError::DescriptorError);
}

#[test]
fn a_report_may_be_full_to_the_last_bit() {
    assert!(is_within_limits(FULL));
    let layout = parse_output_reports(FULL).unwrap();
    assert_eq!(layout[0].size_in_bits, 0xFFFF_FFFF);
    assert!(matches!(&layout[0].fields[0], OutputField::Padding(p) if p.bits == (0..0xFFFF_FFFF)));
    let one_more = joined(&[FULL, &[0x95, 0x01, 0x91, 0x02]]);
    assert!(!is_within_limits(&one_more));
    assert_eq!(parse_output_reports(&one_more).unwrap_err(), HidLightError::DescriptorError);
    let nothing_more = joined(&[FULL, &[0x95, 0x00, 0x91, 0x02, 0x75, 0x00, 0x97, 0xff, 0xff, 0xff, 0xff, 0x91, 0x02]]);
    assert!(is_within_limits(&nothing_more));
}

#[test]
fn each_report_has_a_counter_of_its_own() {
    let three = joined(&[QUARTER, &[0x91, 0x02, 0x91, 0x02]]);
    let spread = joined(&[
        &[0x85, 0x01],
        &three,
        &[0x85, 0x02],
        &three,
        &[0x81, 0x02, 0x81, 0x02, 0x81, 0x02, 0xb1, 0x02, 0xb1, 0x02, 0xb1, 0x02],
    ]);
    assert!(is_within_limits(&spread));
    let layout = parse_output_reports(&spread).unwrap();
    assert_eq!(layout.len(), 2);
    assert_eq!(layout[0].report_id, Some(1));
    assert_eq!(layout[1].report_id, Some(2));
    assert_eq!(layout[1].size_in_bits, 0xC000_0000);
    // back in report 1, which holds three quarters already
    let back = joined(&[&spread, &[0x85, 0x01, 0x91, 0x02]]);
    assert!(!is_within_limits(&back));
    let input = joined(&[&spread, &[0x81, 0x02]]);
    assert!(!is_within_limits(&input));
    // a report of another kind or number starts at nothing
    let fresh = joined(&[&spread, &[0x85, 0x03, 0x91, 0x02, 0x85, 0x01, 0x81, 0x02]]);
    assert!(is_within_limits(&fresh));
}

// One item of one bit with the given bounds, usages and kind, and behind it
// padding that fills a report to the last bit: the two fit one report only
// where the parser leaves the first item out.
fn left_out(head: &[u8], bounds: &[u8], usages: &[u8], data: u8) -> bool {
    let bytes = joined(&[head, bounds, usages, &[0x91, data], FULL]);
    let within = is_within_limits(&bytes);
    if within {
        let layout = parse_output_reports(&bytes).unwrap();
        assert_eq!(layout.len(), 1);
        assert!(layout[0].fields.is_empty());
        assert_eq!(layout[0].size_in_bits, 0);
    } else {
        assert_eq!(parse_output_reports(&bytes).unwrap_err(), HidLightError::DescriptorError);
    }
    within
}

#[test]
fn an_item_that_lacks_something_ends_its_report() {
    let one_bit: &[u8] = &[0x05, 0x08, 0x75, 0x01, 0x95, 0x01];
    let zero_to_one: &[u8] = &[0x15, 0x00, 0x25, 0x01];
    let usage: &[u8] = &[0x09, 0x01];
    assert!(!left_out(one_bit, zero_to_one, usage, 0x02));
    assert!(!left_out(one_bit, zero_to_one, usage, 0x00));
    // no count, no size
    assert!(left_out(&[0x05, 0x08, 0x75, 0x01], zero_to_one, usage, 0x02));
    assert!(left_out(&[0x05, 0x08, 0x95, 0x01], zero_to_one, usage, 0x02));
    // bounds missing or empty
    assert!(left_out(one_bit, &[], usage, 0x02));
    assert!(left_out(one_bit, &[0x15, 0x00], usage, 0x02));
    assert!(left_out(one_bit, &[0x25, 0x01], usage, 0x02));
    assert!(left_out(one_bit, &[0x15, 0x01, 0x25, 0x01], usage, 0x02));
    assert!(left_out(one_bit, &[0x15, 0x02, 0x25, 0x01], usage, 0x00));
    // bounds are signed where the lower one is negative, else unsigned
    assert!(!left_out(one_bit, &[0x15, 0xff, 0x25, 0x01], usage, 0x02));
    assert!(left_out(one_bit, &[0x15, 0xff, 0x25, 0xfe], usage, 0x02));
    assert!(!left_out(one_bit, &[0x15, 0x01, 0x25, 0xff], usage, 0x02));
    assert!(!left_out(one_bit, &[0x16, 0x00, 0x80, 0x26, 0xff, 0x7f], usage, 0x02));
    assert!(left_out(one_bit, &[0x17, 0xff, 0xff, 0xff, 0xff, 0x27, 0x00, 0x00, 0x00, 0x80], usage, 0x02));
    // padding needs no bounds
    assert!(!left_out(one_bit, &[], &[], 0x02));
    assert!(!left_out(one_bit, &[], &[0x19, 0x01], 0x02));
    // a run without a usage serves an array, no variable
    assert!(left_out(one_bit, zero_to_one, &[0x19, 0x05, 0x29, 0x03], 0x02));
    assert!(left_out(one_bit, zero_to_one, &[0x29, 0x03, 0x19, 0x05], 0x02));
    assert!(!left_out(one_bit, zero_to_one, &[0x19, 0x05, 0x29, 0x03], 0x00));
    assert!(!left_out(one_bit, zero_to_one, &[0x19, 0x05, 0x29, 0x03, 0x09, 0x01], 0x02));
    assert!(!left_out(one_bit, zero_to_one, &[0x19, 0x03, 0x29, 0x05], 0x02));
}

#[test]
fn the_walk_ends_where_the_parser_gives_up() {
    assert!(is_within_limits(&[]));
    assert!(is_within_limits(BOOT_KEYBOARD));
    assert!(is_within_limits(LAMP));
    let too_much = joined(&[FULL, FULL]);
    assert!(!is_within_limits(&too_much));
    assert!(is_within_limits(&joined(&[&[0xFC], &too_much])));
    assert!(is_within_limits(&joined(&[FULL, &[0x97, 0xff]])));
    assert!(is_within_limits(&joined(&[FULL, &[0x75, 0x01, 0x97, 0xff, 0xff, 0xff, 0xff, 0x91]])));
    // collections and their ends declare no fields
    assert!(is_within_limits(&joined(&[FULL, &[0xa1, 0x01, 0xc0]])));
}

#[test]
fn the_count_in_force_is_the_one_declared_last() {
    // behind a push and a pop too
    let popped = joined(&[&[0x75, 0x01, 0x95, 0x01, 0xa4, 0x97, 0xff, 0xff, 0xff, 0xff, 0xb4, 0x91, 0x02, 0x95, 0x01, 0x91, 0x02]]);
    assert!(!is_within_limits(&popped));
    let small = joined(&[&[0x75, 0x01, 0x97, 0xff, 0xff, 0xff, 0xff, 0x95, 0x01, 0x91, 0x02, 0x91, 0x02]]);
    assert!(is_within_limits(&small));
}

#[test]
fn a_large_report_is_read_and_built() {
    let large: &[u8] = &[
        0x05, 0x08, 0x09, 0x01, 0xa1, 0x01, 0x15, 0x00, 0x25, 0x01, 0x75, 0x01, 0x97, 0x30, 0x57,
        0x05, 0x00, 0x09, 0x4b, 0x91, 0x02, 0xc0,
    ];
    let layout = parse_output_reports(large).unwrap();
    assert_eq!(layout.len(), 1);
    assert_eq!(layout[0].fields.len(), 350_000);
    assert_eq!(layout[0].size_in_bits, 350_000);
    let reports = build_reports(&layout, &DeviceStrings::new());
    assert_eq!(reports.len(), 1);
    assert_eq!(reports[0].outputs.len(), 350_000);
    assert!(reports[0].outputs.iter().all(|o| o.is_toggle()));
    assert_eq!(reports[0].outputs[349_999].bits(), 349_999..350_000);
    assert_eq!(reports[0].outputs[349_999].name.as_deref(), Some("Generic Indicator"));
}

#[test]
fn parsed_reports_are_well_laid_out() {
    for bytes in [BOOT_KEYBOARD, LAMP] {
        for report in parse_output_reports(bytes).unwrap() {
            assert!(report.is_well_laid_out());
            let mut at = 0;
            for field in &report.fields {
                assert_eq!(field.bits().start, at);
                at = field.bits().end;
            }
            assert_eq!(report.size_in_bits, at as usize);
        }
    }
}

#[test]
fn an_index_is_read_from_the_digits_of_a_text() {
    assert_eq!(index_from_text("StringIndex(42)"), Some(42));
    assert_eq!(index_from_text("StringIndex(0)"), Some(0));
    assert_eq!(index_from_text("7"), Some(7));
    assert_eq!(index_from_text("StringIndex(4294967295)"), Some(4_294_967_295));
    assert_eq!(index_from_text("StringIndex(4294967296)"), None);
    assert_eq!(index_from_text("StringIndex(99999999999999999999999)"), None);
    assert_eq!(index_from_text("StringIndex()"), None);
    assert_eq!(index_from_text(""), None);
    assert_eq!(index_from_text("a1b2"), Some(12));
    assert_eq!(digit('0'), Some(0));
    assert_eq!(digit('9'), Some(9));
    assert_eq!(digit('a'), None);
    assert_eq!(digit('٣'), None);
}

#[test]
fn the_count_declared_last_stays_in_force_behind_a_pop() {
    let popped: &[u8] = &[
        0x05, 0x08, 0x75, 0x01, 0x95, 0x01, 0xa4, 0x95, 0x03, 0xb4, 0x15, 0x00, 0x25, 0x01, 0x19,
        0x01, 0x29, 0x03, 0x91, 0x02,
    ];
    let layout = parse_output_reports(popped).unwrap();
    assert_eq!(layout.len(), 1);
    assert_eq!(layout[0].fields.len(), 3);
    assert_eq!(layout[0].size_in_bits, 3);
}

#[test]
fn fields_in_nested_collections_are_read() {
    let mut nested = vec![0x05, 0x08, 0x15, 0x00, 0x25, 0x01, 0x75, 0x01, 0x95, 0x02];
    for _ in 0..12 {
        nested.extend_from_slice(&[0x09, 0x01, 0xa1, 0x02]);
    }
    nested.extend_from_slice(&[0x19, 0x01, 0x29, 0x02, 0x91, 0x02]);
    for _ in 0..12 {
        nested.push(0xc0);
    }
    assert!(is_within_limits(&nested));
    let layout = parse_output_reports(&nested).unwrap();
    assert_eq!(layout.len(), 1);
    assert_eq!(layout[0].fields.len(), 2);
}

#[test]
fn a_variable_field_gets_the_index_that_its_print_names() {
    let parsed = || VariableField {
        bits: 3..11,
        usage: Usage { page: 8, id: 0x4b },
        logical_minimum: -2,
        logical_maximum: 90,
        string_index: None,
        variable: true,
    };
    let indexed = with_string_index(parsed(), Some("StringIndex(17)".to_string()));
    assert_eq!(indexed.string_index, Some(17));
    assert_eq!(indexed.bits, 3..11);
    assert_eq!(indexed.usage, Usage { page: 8, id: 0x4b });
    assert_eq!(indexed.logical_minimum, -2);
    assert_eq!(indexed.logical_maximum, 90);
    assert!(indexed.variable);
    assert_eq!(with_string_index(parsed(), None).string_index, None);
    assert_eq!(with_string_index(parsed(), Some("StringIndex()".to_string())).string_index, None);
    let mut stale = parsed();
    stale.string_index = Some(5);
    stale.variable = false;
    let cleared = with_string_index(stale, None);
    assert_eq!(cleared.string_index, None);
    assert!(!cleared.variable);
}
