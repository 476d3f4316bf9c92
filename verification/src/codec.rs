//! From the levels of a report's controls to the bytes that the device gets.
//!
//! Bits are counted from the most significant bit of the first byte. The
//! number of a ranged control is written with its lowest bit in the last bit
//! of the control's range, for signed and unsigned controls alike; a signed
//! control is written in two's complement of the width of its range.

use crate::report::{
    ControlModel, DeviceOutput, DeviceOutputValue, Report, ReportModel, ValueKind, LEVEL_EPSILON,
    LEVEL_ONE,
};
use bitvec::{order::Msb0, view::BitView};
use vstd::prelude::*;

verus! {

/// A level brought into the range from zero to one.
pub open spec fn clamped(level: int) -> int {
    if level < 0 {
        0
    } else if level > LEVEL_ONE {
        LEVEL_ONE as int
    } else {
        level
    }
}

/// The share `level` of `span`, rounded to the nearest whole number, a half
/// away from zero. The level is between zero and one.
pub open spec fn rounded_share(span: int, level: int) -> int {
    if span >= 0 {
        (2 * span * level + LEVEL_ONE) / (2 * LEVEL_ONE)
    } else {
        -((2 * (-span) * level + LEVEL_ONE) / (2 * LEVEL_ONE))
    }
}

/// The number that a ranged control sends at a level: the lower bound at
/// zero, the upper bound at one, and in proportion between them.
pub open spec fn scaled(lo: int, hi: int, level: int) -> int {
    lo + rounded_share(hi - lo, clamped(level))
}

/// A number of 32 bits read as an unsigned one.
pub open spec fn unsigned_of(number: int) -> int {
    if number < 0 {
        number + 0x1_0000_0000
    } else {
        number
    }
}

/// Bit `k` of a number in two's complement, bit 0 being the lowest. A
/// negative number has ones without end above its highest zero.
pub open spec fn bit_of(number: int, k: nat) -> bool
    decreases k,
{
    if k == 0 {
        number % 2 == 1
    } else {
        bit_of(number / 2, (k - 1) as nat)
    }
}

/// What the bit at `place` of a byte is worth, place 0 being the most
/// significant bit.
pub open spec fn place_value(place: int) -> int {
    if place == 0 {
        128
    } else if place == 1 {
        64
    } else if place == 2 {
        32
    } else if place == 3 {
        16
    } else if place == 4 {
        8
    } else if place == 5 {
        4
    } else if place == 6 {
        2
    } else {
        1
    }
}

/// Whether the bit at `place` of a byte is set.
pub open spec fn byte_bit(byte: u8, place: int) -> bool {
    (byte as int / place_value(place)) % 2 == 1
}

/// A byte with the bit at `place` set or cleared and the other bits as they
/// were.
pub open spec fn byte_with_bit(byte: u8, place: int, on: bool) -> u8 {
    if byte_bit(byte, place) == on {
        byte
    } else if on {
        (byte + place_value(place)) as u8
    } else {
        (byte - place_value(place)) as u8
    }
}

/// Whether bit `i` of a buffer is set. There is no bit outside the buffer.
pub open spec fn bit_at(buf: Seq<u8>, i: int) -> bool {
    0 <= i < 8 * buf.len() && byte_bit(buf[i / 8], i % 8)
}

/// A buffer with bit `i` set or cleared and every other bit as it was. A bit
/// outside the buffer is not written.
pub open spec fn with_bit(buf: Seq<u8>, i: int, on: bool) -> Seq<u8> {
    if 0 <= i < 8 * buf.len() {
        buf.update(i / 8, byte_with_bit(buf[i / 8], i % 8, on))
    } else {
        buf
    }
}

/// A buffer with the `count` bits from `start` on all set or all cleared.
pub open spec fn filled(buf: Seq<u8>, start: int, on: bool, count: nat) -> Seq<u8>
    decreases count,
{
    if count == 0 {
        buf
    } else {
        with_bit(filled(buf, start, on, (count - 1) as nat), start + count - 1, on)
    }
}

/// A buffer with the `count` lowest bits of `number` written in front of
/// `end`: the lowest bit in the bit before `end`, the next one before that.
pub open spec fn numbered(buf: Seq<u8>, end: int, number: int, count: nat) -> Seq<u8>
    decreases count,
{
    if count == 0 {
        buf
    } else {
        with_bit(
            numbered(buf, end, number, (count - 1) as nat),
            end - count,
            bit_of(number, (count - 1) as nat),
        )
    }
}

/// A buffer with one control written into it.
///
/// A toggle sets or clears every bit of its range. An unsigned control
/// writes its number unless the number is zero: then it writes nothing, the
/// buffer being blank where controls go. A signed control writes its number
/// in two's complement.
pub open spec fn control_written(buf: Seq<u8>, control: ControlModel) -> Seq<u8> {
    let level = clamped(control.level);
    match control.kind {
        ValueKind::Toggle => filled(
            buf,
            control.start,
            level > LEVEL_EPSILON,
            control.width() as nat,
        ),
        ValueKind::Unsigned { lo, hi } => {
            let number = unsigned_of(scaled(lo, hi, level));
            if number == 0 {
                buf
            } else {
                numbered(buf, control.end, number, control.width() as nat)
            }
        },
        ValueKind::Signed { lo, hi } => numbered(
            buf,
            control.end,
            scaled(lo, hi, level),
            control.width() as nat,
        ),
    }
}

/// A buffer with the first `upto` controls written into it, one after the
/// other.
pub open spec fn controls_written(buf: Seq<u8>, outputs: Seq<ControlModel>, upto: nat) -> Seq<u8>
    decreases upto,
{
    if upto == 0 || upto > outputs.len() {
        buf
    } else {
        control_written(controls_written(buf, outputs, (upto - 1) as nat), outputs[upto - 1])
    }
}

/// The number of bytes that hold `bits` bits.
pub open spec fn bytes_for(bits: nat) -> nat {
    if bits % 8 == 0 {
        bits / 8
    } else {
        bits / 8 + 1
    }
}

/// The buffer of a report before any control is written: the low byte of the
/// report's number in the first byte, where there is one, and zeros after.
pub open spec fn blank(id: u32, size_in_bits: nat) -> Seq<u8> {
    Seq::new(
        bytes_for(size_in_bits),
        |i: int|
            if i == 0 {
                (id % 256) as u8
            } else {
                0u8
            },
    )
}

/// The bytes that are sent for a report.
pub open spec fn encoded(report: ReportModel) -> Seq<u8> {
    controls_written(blank(report.id, report.size_in_bits), report.outputs, report.outputs.len())
}

/// Sets or clears one bit of a byte through `bitvec`: `view_bits_mut` in the
/// order `Msb0`, then `set` at `place`.
///
/// Not proved: that place 0 is the bit worth 128 and place 7 the bit worth 1,
/// and that the other bits stay. `set` panics on a place outside the byte,
/// which `requires` leaves out.
#[verifier::external_body]
fn put_bit(byte: &mut u8, place: usize, on: bool)
    requires
        place < 8,
    ensures
        *final(byte) == byte_with_bit(*old(byte), place as int, on),
{
    byte.view_bits_mut::<Msb0>().set(place, on);
}

/// Sets or clears bit `i` of a buffer, if the buffer has such a bit.
pub fn set_bit(buf: &mut Vec<u8>, i: usize, on: bool)
    ensures
        final(buf)@ == with_bit(old(buf)@, i as int, on),
{
    let at = i / 8;
    if at < buf.len() {
        let mut byte = buf[at];
        put_bit(&mut byte, i % 8, on);
        buf.set(at, byte);
    }
}

/// Brings a level into the range from zero to one.
pub fn clamp_level(level: i32) -> (r: i32)
    ensures
        r == clamped(level as int),
{
    if level < 0 {
        0
    } else if level > LEVEL_ONE {
        LEVEL_ONE
    } else {
        level
    }
}

/// The share of a span at level zero is nothing, and at level one the whole
/// span; between the two it lies between nothing and the span.
pub proof fn lemma_rounded_share(span: int, level: int)
    requires
        0 <= level <= LEVEL_ONE,
    ensures
        rounded_share(span, 0) == 0,
        rounded_share(span, LEVEL_ONE as int) == span,
        span >= 0 ==> 0 <= rounded_share(span, level) <= span,
        span <= 0 ==> span <= rounded_share(span, level) <= 0,
{
    let one = LEVEL_ONE as int;
    let size = if span >= 0 {
        span
    } else {
        -span
    };
    assert((2 * size * one + one) / (2 * one) == size) by (nonlinear_arith)
        requires
            one == 0x0100_0000,
            size >= 0,
    ;
    assert(0 <= (2 * size * level + one) / (2 * one) <= size) by (nonlinear_arith)
        requires
            one == 0x0100_0000,
            size >= 0,
            0 <= level <= one,
    ;
    assert(2 * size * 0 == 0);
}

/// The number that a control with the logical bounds `lo` and `hi` sends at
/// `level`: `lo` at zero and below, `hi` at one and above, and between the
/// two in proportion, whichever of the bounds is the larger.
pub fn scale(lo: i32, hi: i32, level: i32) -> (r: i32)
    ensures
        r == scaled(lo as int, hi as int, level as int),
        lo <= hi ==> lo <= r <= hi,
        hi <= lo ==> hi <= r <= lo,
        level <= 0 ==> r == lo,
        level >= LEVEL_ONE ==> r == hi,
{
    let share: u64 = clamp_level(level) as u64;
    let one: u64 = LEVEL_ONE as u64;
    let size: u64 = if hi >= lo {
        (hi as i64 - lo as i64) as u64
    } else {
        (lo as i64 - hi as i64) as u64
    };
    proof {
        lemma_rounded_share(hi - lo, share as int);
        assert(0 <= 2 * size * share <= 2 * size * one) by (nonlinear_arith)
            requires
                0 <= share <= one,
                size >= 0,
        ;
        assert(2 * size * one + one < 0x400_0000_0000_0000) by (nonlinear_arith)
            requires
                0 <= size < 0x1_0000_0000,
                one == 0x0100_0000,
        ;
    }
    let part: u64 = (2 * size * share + one) / (2 * one);
    if hi >= lo {
        (lo as i64 + part as i64) as i32
    } else {
        (lo as i64 - part as i64) as i32
    }
}

/// Sets or clears the bits from `start` up to `end`.
pub fn fill(buf: &mut Vec<u8>, start: u32, end: u32, on: bool)
    ensures
        final(buf)@ == filled(
            old(buf)@,
            start as int,
            on,
            if end > start {
                (end - start) as nat
            } else {
                0
            },
        ),
{
    let mut i: u32 = start;
    while i < end
        invariant
            start <= i,
            i <= end || i == start,
            buf@ == filled(old(buf)@, start as int, on, (i - start) as nat),
        decreases
                if end > i {
                    end - i
                } else {
                    0
                },
    {
        set_bit(buf, i as usize, on);
        i += 1;
    }
}

/// The complement of a negative number has the opposite bits.
pub proof fn lemma_bits_of_negative(number: int, k: nat)
    requires
        number < 0,
    ensures
        bit_of(number, k) == !bit_of(-number - 1, k),
    decreases k,
{
    if k > 0 {
        lemma_bits_of_negative(number / 2, (k - 1) as nat);
        assert((-number - 1) / 2 == -(number / 2) - 1);
    }
}

/// Writes the lowest bits of `number` into the bits from `start` up to
/// `end`, the lowest bit last. A negative number is written in two's
/// complement.
pub fn write_number(buf: &mut Vec<u8>, start: u32, end: u32, number: i64)
    ensures
        final(buf)@ == numbered(
            old(buf)@,
            end as int,
            number as int,
            if end > start {
                (end - start) as nat
            } else {
                0
            },
        ),
{
    let negative = number < 0;
    let mut rest: u64 = if negative {
        (-(number + 1)) as u64
    } else {
        number as u64
    };
    let ghost shown: int = if negative {
        -number - 1
    } else {
        number as int
    };
    let mut i: u32 = end;
    while i > start
        invariant
            i <= end,
            start <= i || i == end,
            shown == if negative {
                -number - 1
            } else {
                number as int
            },
            negative == (number < 0),
            forall|k: nat| #[trigger] bit_of(rest as int, k) == bit_of(shown, k + (end - i) as nat),
            buf@ == numbered(old(buf)@, end as int, number as int, (end - i) as nat),
        decreases i,
    {
        let low = rest % 2 == 1;
        proof {
            let done = (end - i) as nat;
            assert(bit_of(rest as int, 0) == bit_of(shown, 0 + done));
            if negative {
                lemma_bits_of_negative(number as int, done);
            }
            assert forall|k: nat| #[trigger]
                bit_of((rest / 2) as int, k) == bit_of(shown, k + (done + 1)) by {
                assert(bit_of(rest as int, k + 1) == bit_of(shown, (k + 1) + done));
            }
        }
        i -= 1;
        set_bit(buf, i as usize, low != negative);
        rest = rest / 2;
    }
}

/// Writes one control into a buffer.
pub fn write_control(buf: &mut Vec<u8>, control: &DeviceOutput)
    ensures
        final(buf)@ == control_written(old(buf)@, control@),
{
    let start = control.bits.start;
    let end = control.bits.end;
    match &control.kind {
        DeviceOutputValue::Toggle => {
            let on = clamp_level(control.real_value) > LEVEL_EPSILON;
            fill(buf, start, end, on);
        },
        DeviceOutputValue::Unsigned(range) => {
            let number = scale(*range.start(), *range.end(), control.real_value);
            let sent: i64 = if number < 0 {
                number as i64 + 0x1_0000_0000
            } else {
                number as i64
            };
            if sent != 0 {
                write_number(buf, start, end, sent);
            }
        },
        DeviceOutputValue::Signed(range) => {
            let number = scale(*range.start(), *range.end(), control.real_value);
            write_number(buf, start, end, number as i64);
        },
    }
}

/// The buffer of a report before any control is written.
pub fn blank_buffer(id: u32, size_in_bits: usize) -> (buf: Vec<u8>)
    ensures
        buf@ == blank(id, size_in_bits as nat),
{
    let len: usize = if size_in_bits % 8 == 0 {
        size_in_bits / 8
    } else {
        size_in_bits / 8 + 1
    };
    let mut buf: Vec<u8> = vec![0u8; len];
    if len > 0 {
        buf.set(0, (id % 256) as u8);
    }
    assert(buf@ =~= blank(id, size_in_bits as nat));
    buf
}

/// Packs a report into the bytes that the device expects: as many bytes as
/// hold the bits of the report, the report's number in the first byte, and
/// each control written at its level, in the order of the controls. Levels
/// below zero count as zero and levels above one as one.
pub fn encode(report: &Report) -> (buf: Vec<u8>)
    ensures
        buf@ == encoded(report@),
        buf@.len() == bytes_for(report.size_in_bits as nat),
{
    let mut buf = blank_buffer(report.id, report.size_in_bits);
    let mut i: usize = 0;
    while i < report.outputs.len()
        invariant
            i <= report.outputs@.len(),
            buf@ == controls_written(
                blank(report.id, report.size_in_bits as nat),
                report@.outputs,
                i as nat,
            ),
            buf@.len() == bytes_for(report.size_in_bits as nat),
        decreases report.outputs@.len() - i,
    {
        let ghost before = buf@;
        write_control(&mut buf, &report.outputs[i]);
        proof {
            lemma_control_keeps_length(before, report.outputs@[i as int]@);
        }
        i += 1;
    }
    buf
}

/// Writing bits changes no length.
pub proof fn lemma_filled_keeps_length(buf: Seq<u8>, start: int, on: bool, count: nat)
    ensures
        filled(buf, start, on, count).len() == buf.len(),
    decreases count,
{
    if count > 0 {
        lemma_filled_keeps_length(buf, start, on, (count - 1) as nat);
    }
}

/// Writing a number changes no length.
pub proof fn lemma_numbered_keeps_length(buf: Seq<u8>, end: int, number: int, count: nat)
    ensures
        numbered(buf, end, number, count).len() == buf.len(),
    decreases count,
{
    if count > 0 {
        lemma_numbered_keeps_length(buf, end, number, (count - 1) as nat);
    }
}

/// Writing a control changes no length.
pub proof fn lemma_control_keeps_length(buf: Seq<u8>, control: ControlModel)
    ensures
        control_written(buf, control).len() == buf.len(),
{
    let level = clamped(control.level);
    match control.kind {
        ValueKind::Toggle => {
            lemma_filled_keeps_length(
                buf,
                control.start,
                level > LEVEL_EPSILON,
                control.width() as nat,
            );
        },
        ValueKind::Unsigned { lo, hi } => {
            lemma_numbered_keeps_length(
                buf,
                control.end,
                unsigned_of(scaled(lo, hi, level)),
                control.width() as nat,
            );
        },
        ValueKind::Signed { lo, hi } => {
            lemma_numbered_keeps_length(
                buf,
                control.end,
                scaled(lo, hi, level),
                control.width() as nat,
            );
        },
    }
}

} // verus!
