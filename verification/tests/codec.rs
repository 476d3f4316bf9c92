use hidlights::codec::{blank_buffer, clamp_level, fill, scale, set_bit, write_control, write_number};
use hidlights::{encode, DeviceOutput, DeviceOutputValue, Report, LEVEL_EPSILON, LEVEL_ONE};

fn control(kind: DeviceOutputValue, bits: std::ops::Range<u32>, level: i32) -> DeviceOutput {
    let mut control = DeviceOutput::new(kind, bits, None);
    control.real_value = level;
    control
}

fn sent(id: u32, size_in_bits: usize, outputs: Vec<DeviceOutput>) -> Vec<u8> {
    encode(&Report::new(id, size_in_bits, outputs))
}

#[test]
fn toggle_at_bit_zero_sets_the_top_bit_of_the_first_byte() {
    let on = control(DeviceOutputValue::Toggle, 0..1, LEVEL_ONE);
    assert_eq!(sent(0, 9, vec![on]), vec![0x80, 0x00]);
}

#[test]
fn toggle_at_bit_eight_sets_the_top_bit_of_the_second_byte() {
    let on = control(DeviceOutputValue::Toggle, 8..9, LEVEL_ONE);
    assert_eq!(sent(0, 9, vec![on]), vec![0x00, 0x80]);
}

#[test]
fn toggle_off_leaves_the_buffer_blank() {
    let off = control(DeviceOutputValue::Toggle, 8..9, 0);
    assert_eq!(sent(0, 9, vec![off]), vec![0x00, 0x00]);
}

#[test]
fn toggle_needs_more_than_epsilon() {
    let at = control(DeviceOutputValue::Toggle, 8..9, LEVEL_EPSILON);
    assert_eq!(sent(0, 16, vec![at]), vec![0x00, 0x00]);
    let above = control(DeviceOutputValue::Toggle, 8..9, LEVEL_EPSILON + 1);
    assert_eq!(sent(0, 16, vec![above]), vec![0x00, 0x80]);
}

#[test]
fn toggle_fills_its_whole_range() {
    let wide = control(DeviceOutputValue::Toggle, 9..13, LEVEL_ONE);
    assert_eq!(sent(0, 16, vec![wide]), vec![0x00, 0x78]);
}

#[test]
fn buffer_has_one_byte_for_every_eight_bits_begun() {
    assert_eq!(sent(0, 0, vec![]), Vec::<u8>::new());
    assert_eq!(sent(0, 1, vec![]), vec![0]);
    assert_eq!(sent(0, 8, vec![]), vec![0]);
    assert_eq!(sent(0, 9, vec![]), vec![0, 0]);
    assert_eq!(sent(0, 16, vec![]), vec![0, 0]);
    assert_eq!(sent(0, 17, vec![]), vec![0, 0, 0]);
}

#[test]
fn first_byte_holds_the_low_byte_of_the_report_number() {
    assert_eq!(sent(7, 16, vec![]), vec![7, 0]);
    assert_eq!(sent(0x1FF, 16, vec![]), vec![0xFF, 0]);
    assert_eq!(sent(0x100, 16, vec![]), vec![0, 0]);
    assert_eq!(blank_buffer(0x2A, 24), vec![0x2A, 0, 0]);
}

#[test]
fn unsigned_is_written_with_its_lowest_bit_last() {
    let one = control(DeviceOutputValue::Unsigned(0..=7), 8..11, LEVEL_ONE / 7);
    assert_eq!(sent(0, 16, vec![one]), vec![0x00, 0x20]);
    let four = control(DeviceOutputValue::Unsigned(0..=7), 8..11, 9_586_981);
    assert_eq!(sent(0, 16, vec![four]), vec![0x00, 0x80]);
    let seven = control(DeviceOutputValue::Unsigned(0..=7), 8..11, LEVEL_ONE);
    assert_eq!(sent(0, 16, vec![seven]), vec![0x00, 0xE0]);
}

#[test]
fn unsigned_runs_from_the_lower_bound_to_the_upper() {
    let low = control(DeviceOutputValue::Unsigned(10..=200), 8..16, 0);
    assert_eq!(sent(1, 16, vec![low]), vec![1, 10]);
    let high = control(DeviceOutputValue::Unsigned(10..=200), 8..16, LEVEL_ONE);
    assert_eq!(sent(1, 16, vec![high]), vec![1, 200]);
    let half = control(DeviceOutputValue::Unsigned(10..=200), 8..16, LEVEL_ONE / 2);
    assert_eq!(sent(1, 16, vec![half]), vec![1, 105]);
}

#[test]
fn a_half_rounds_away_from_zero() {
    assert_eq!(scale(0, 255, LEVEL_ONE / 2), 128);
    assert_eq!(scale(0, 1, LEVEL_ONE / 2), 1);
    assert_eq!(scale(0, 1, LEVEL_ONE / 2 - 1), 0);
    assert_eq!(scale(0, 3, LEVEL_ONE / 2), 2);
    assert_eq!(scale(0, -3, LEVEL_ONE / 2), -2);
    assert_eq!(scale(0, 100, LEVEL_ONE / 4), 25);
}

#[test]
fn scale_covers_the_whole_range_of_the_bounds() {
    assert_eq!(scale(i32::MIN, i32::MAX, 0), i32::MIN);
    assert_eq!(scale(i32::MIN, i32::MAX, LEVEL_ONE), i32::MAX);
    assert_eq!(scale(i32::MAX, i32::MIN, LEVEL_ONE), i32::MIN);
    assert_eq!(scale(5, 5, LEVEL_ONE), 5);
    assert_eq!(scale(-7, 9, 0), -7);
    assert_eq!(scale(-7, 9, LEVEL_ONE), 9);
}

#[test]
fn levels_are_clamped() {
    assert_eq!(clamp_level(-1), 0);
    assert_eq!(clamp_level(i32::MIN), 0);
    assert_eq!(clamp_level(0), 0);
    assert_eq!(clamp_level(12345), 12345);
    assert_eq!(clamp_level(LEVEL_ONE), LEVEL_ONE);
    assert_eq!(clamp_level(LEVEL_ONE + 1), LEVEL_ONE);
    assert_eq!(clamp_level(i32::MAX), LEVEL_ONE);
}

#[test]
fn below_zero_is_sent_as_zero_and_above_one_as_one() {
    let kinds: Vec<fn() -> DeviceOutputValue> = vec![
        || DeviceOutputValue::Toggle,
        || DeviceOutputValue::Unsigned(3..=250),
        || DeviceOutputValue::Signed(-100..=100),
    ];
    for kind in kinds {
        let below = sent(2, 24, vec![control(kind(), 8..16, -LEVEL_ONE)]);
        let zero = sent(2, 24, vec![control(kind(), 8..16, 0)]);
        assert_eq!(below, zero);
        let above = sent(2, 24, vec![control(kind(), 8..16, 2 * LEVEL_ONE)]);
        let one = sent(2, 24, vec![control(kind(), 8..16, LEVEL_ONE)]);
        assert_eq!(above, one);
        assert_ne!(zero, one);
    }
}

#[test]
fn unsigned_zero_writes_nothing() {
    let mut buf = vec![0xFF, 0xFF];
    write_control(&mut buf, &control(DeviceOutputValue::Unsigned(0..=255), 8..16, 0));
    assert_eq!(buf, vec![0xFF, 0xFF]);
    write_control(&mut buf, &control(DeviceOutputValue::Unsigned(1..=255), 8..16, 0));
    assert_eq!(buf, vec![0xFF, 0x01]);
    assert_eq!(
        sent(0, 16, vec![control(DeviceOutputValue::Unsigned(0..=255), 8..16, 0)]),
        vec![0x00, 0x00]
    );
}

#[test]
fn signed_zero_is_written() {
    let mut buf = vec![0xFF, 0xFF];
    write_control(&mut buf, &control(DeviceOutputValue::Signed(0..=255), 8..16, 0));
    assert_eq!(buf, vec![0xFF, 0x00]);
}

#[test]
fn signed_is_sent_in_twos_complement() {
    let low = control(DeviceOutputValue::Signed(-128..=127), 8..16, 0);
    assert_eq!(sent(0, 16, vec![low]), vec![0x00, 0x80]);
    let high = control(DeviceOutputValue::Signed(-128..=127), 8..16, LEVEL_ONE);
    assert_eq!(sent(0, 16, vec![high]), vec![0x00, 0x7F]);
    let middle = control(DeviceOutputValue::Signed(-128..=127), 8..16, LEVEL_ONE / 2);
    assert_eq!(sent(0, 16, vec![middle]), vec![0x00, 0x00]);
    let minus_one = control(DeviceOutputValue::Signed(-1..=-1), 8..12, 0);
    assert_eq!(sent(0, 16, vec![minus_one]), vec![0x00, 0xF0]);
    let minus_two = control(DeviceOutputValue::Signed(-2..=5), 9..12, 0);
    assert_eq!(sent(0, 16, vec![minus_two]), vec![0x00, 0x60]);
}

#[test]
fn signed_and_unsigned_share_one_bit_order() {
    let signed = control(DeviceOutputValue::Signed(0..=6), 8..11, LEVEL_ONE);
    let unsigned = control(DeviceOutputValue::Unsigned(0..=6), 8..11, LEVEL_ONE);
    assert_eq!(sent(0, 16, vec![signed]), vec![0x00, 0xC0]);
    assert_eq!(sent(0, 16, vec![unsigned]), vec![0x00, 0xC0]);
}

#[test]
fn unsigned_below_zero_is_read_as_32_bits() {
    let narrow = control(DeviceOutputValue::Unsigned(-1..=0), 8..16, 0);
    assert_eq!(sent(0, 16, vec![narrow]), vec![0x00, 0xFF]);
    let wide = control(DeviceOutputValue::Unsigned(-1..=-1), 0..40, 0);
    assert_eq!(sent(0, 40, vec![wide]), vec![0x00, 0xFF, 0xFF, 0xFF, 0xFF]);
}

#[test]
fn signed_wider_than_32_bits_extends_its_sign() {
    let negative = control(DeviceOutputValue::Signed(-1..=-1), 0..40, 0);
    assert_eq!(sent(0, 40, vec![negative]), vec![0xFF, 0xFF, 0xFF, 0xFF, 0xFF]);
    let positive = control(DeviceOutputValue::Signed(1..=1), 0..40, 0);
    assert_eq!(sent(0, 40, vec![positive]), vec![0x00, 0x00, 0x00, 0x00, 0x01]);
}

#[test]
fn bits_outside_the_buffer_are_not_written() {
    let over = control(DeviceOutputValue::Toggle, 4..12, LEVEL_ONE);
    assert_eq!(sent(0, 8, vec![over]), vec![0x0F]);
    let far = control(DeviceOutputValue::Unsigned(0..=255), 64..72, LEVEL_ONE);
    assert_eq!(sent(3, 16, vec![far]), vec![3, 0]);
}

#[test]
fn a_range_that_ends_before_it_starts_holds_no_bit() {
    let backwards = control(DeviceOutputValue::Toggle, 12..8, LEVEL_ONE);
    assert_eq!(sent(0, 16, vec![backwards]), vec![0, 0]);
    let empty = control(DeviceOutputValue::Unsigned(1..=9), 8..8, LEVEL_ONE);
    assert_eq!(sent(0, 16, vec![empty]), vec![0, 0]);
}

#[test]
fn controls_are_written_in_their_order() {
    let first = control(DeviceOutputValue::Toggle, 8..16, LEVEL_ONE);
    let second = control(DeviceOutputValue::Unsigned(0..=15), 12..16, LEVEL_ONE / 3);
    assert_eq!(sent(0, 16, vec![first, second]), vec![0x00, 0xF5]);
    let first = control(DeviceOutputValue::Unsigned(0..=15), 12..16, LEVEL_ONE / 3);
    let second = control(DeviceOutputValue::Toggle, 8..16, LEVEL_ONE);
    assert_eq!(sent(0, 16, vec![first, second]), vec![0x00, 0xFF]);
}

#[test]
fn a_control_in_the_first_byte_writes_over_the_report_number() {
    let on = control(DeviceOutputValue::Toggle, 0..1, LEVEL_ONE);
    assert_eq!(sent(1, 8, vec![on]), vec![0x81]);
    let cleared = control(DeviceOutputValue::Signed(0..=0), 0..8, 0);
    assert_eq!(sent(0xFF, 8, vec![cleared]), vec![0x00]);
}

#[test]
fn disjoint_controls_each_get_their_bits() {
    let a = control(DeviceOutputValue::Toggle, 8..9, LEVEL_ONE);
    let b = control(DeviceOutputValue::Unsigned(0..=3), 9..11, LEVEL_ONE);
    let c = control(DeviceOutputValue::Toggle, 11..12, 0);
    let d = control(DeviceOutputValue::Signed(-8..=7), 12..16, 0);
    assert_eq!(sent(5, 16, vec![a, b, c, d]), vec![5, 0b1110_1000]);
}

#[test]
fn set_bit_counts_from_the_most_significant_bit() {
    let mut buf = vec![0u8, 0u8];
    set_bit(&mut buf, 0, true);
    assert_eq!(buf, vec![0x80, 0x00]);
    set_bit(&mut buf, 7, true);
    assert_eq!(buf, vec![0x81, 0x00]);
    set_bit(&mut buf, 9, true);
    assert_eq!(buf, vec![0x81, 0x40]);
    set_bit(&mut buf, 0, false);
    assert_eq!(buf, vec![0x01, 0x40]);
    set_bit(&mut buf, 9, true);
    assert_eq!(buf, vec![0x01, 0x40]);
    set_bit(&mut buf, 3, false);
    assert_eq!(buf, vec![0x01, 0x40]);
    set_bit(&mut buf, 16, true);
    assert_eq!(buf, vec![0x01, 0x40]);
}

#[test]
fn fill_sets_and_clears_runs() {
    let mut buf = vec![0u8, 0u8, 0u8];
    fill(&mut buf, 6, 18, true);
    assert_eq!(buf, vec![0x03, 0xFF, 0xC0]);
    fill(&mut buf, 8, 12, false);
    assert_eq!(buf, vec![0x03, 0x0F, 0xC0]);
    fill(&mut buf, 5, 5, true);
    assert_eq!(buf, vec![0x03, 0x0F, 0xC0]);
}

#[test]
fn write_number_takes_the_lowest_bits() {
    let mut buf = vec![0xFFu8, 0xFFu8];
    write_number(&mut buf, 4, 12, 0x1A5);
    assert_eq!(buf, vec![0xFA, 0x5F]);
    let mut buf = vec![0u8, 0u8];
    write_number(&mut buf, 0, 16, -2);
    assert_eq!(buf, vec![0xFF, 0xFE]);
    let mut buf = vec![0u8, 0u8];
    write_number(&mut buf, 16, 0, -1);
    assert_eq!(buf, vec![0x00, 0x00]);
}

#[test]
fn every_control_starts_at_level_zero() {
    let fresh = DeviceOutput::new(DeviceOutputValue::Unsigned(0..=9), 0..4, Some("x".to_string()));
    assert_eq!(fresh.real_value, 0);
    let built = DeviceOutput::for_field(0..4, 0, 9, None);
    assert_eq!(built.real_value, 0);
}

#[test]
fn one_bit_is_a_toggle_whatever_the_bounds() {
    assert!(DeviceOutput::for_field(3..4, 0, 255, None).is_toggle());
    assert!(DeviceOutput::for_field(3..4, -5, 5, None).is_toggle());
    assert!(!DeviceOutput::for_field(3..5, 0, 1, None).is_toggle());
    assert!(!DeviceOutput::for_field(3..3, 0, 1, None).is_toggle());
    assert!(!DeviceOutput::for_field(4..3, 0, 1, None).is_toggle());
    let ranged = DeviceOutput::for_field(0..8, 2, 77, None);
    assert!(matches!(ranged.kind(), DeviceOutputValue::Unsigned(r) if *r == (2..=77)));
    assert_eq!(ranged.bits(), 0..8);
}

#[test]
fn report_keeps_what_it_was_made_with() {
    let report = Report::new(4, 12, vec![DeviceOutput::new(DeviceOutputValue::Toggle, 8..9, None)]);
    assert_eq!(report.id(), 4);
    assert_eq!(report.size_in_bits(), 12);
    assert_eq!(report.outputs.len(), 1);
}
