//! What the encoding of a report is, bit by bit.

use crate::codec::{
    bit_at, bit_of, blank, byte_bit, byte_with_bit, bytes_for, clamped, control_written,
    place_value,
    controls_written, encoded, filled, lemma_control_keeps_length, lemma_filled_keeps_length,
    lemma_numbered_keeps_length, numbered, scaled, unsigned_of, with_bit,
};
use crate::report::{ControlModel, ReportModel, ValueKind, LEVEL_EPSILON, LEVEL_ONE};
use vstd::prelude::*;

verus! {

/// Adding or taking away the worth of one bit of a byte changes that bit
/// and no other. `weight` and `other` are each the worth of one bit.
proof fn lemma_weights(byte: u8, weight: u8, other: u8, on: bool)
    by (bit_vector)
    requires
        weight == 128 || weight == 64 || weight == 32 || weight == 16 || weight == 8 || weight == 4
            || weight == 2 || weight == 1,
        other == 128 || other == 64 || other == 32 || other == 16 || other == 8 || other == 4
            || other == 2 || other == 1,
    ensures
        ((byte / weight) % 2 == 1) == on ==> ((byte / other) % 2 == 1) == (if other == weight {
            on
        } else {
            (byte / other) % 2 == 1
        }),
        ((byte / weight) % 2 == 1) != on && on ==> ((((byte + weight) as u8) / other) % 2 == 1)
            == (if other == weight {
            on
        } else {
            (byte / other) % 2 == 1
        }),
        ((byte / weight) % 2 == 1) != on && !on ==> ((((byte - weight) as u8) / other) % 2 == 1)
            == (if other == weight {
            on
        } else {
            (byte / other) % 2 == 1
        }),
{
}

/// Setting or clearing one bit of a byte gives that bit its value and leaves
/// the seven others.
pub proof fn lemma_byte_with_bit(byte: u8, place: int, on: bool, other: int)
    requires
        0 <= place < 8,
        0 <= other < 8,
    ensures
        byte_bit(byte_with_bit(byte, place, on), other) == if other == place {
            on
        } else {
            byte_bit(byte, other)
        },
{
    let weight = place_value(place) as u8;
    let other_weight = place_value(other) as u8;
    lemma_weights(byte, weight, other_weight, on);
    assert(other_weight == weight <==> other == place);
}

/// Setting or clearing one bit of a buffer gives that bit its value and
/// leaves every other bit.
pub proof fn lemma_with_bit(buf: Seq<u8>, i: int, on: bool, j: int)
    ensures
        with_bit(buf, i, on).len() == buf.len(),
        bit_at(with_bit(buf, i, on), j) == if j == i && 0 <= i < 8 * buf.len() {
            on
        } else {
            bit_at(buf, j)
        },
{
    if 0 <= i < 8 * buf.len() && 0 <= j < 8 * buf.len() {
        lemma_byte_with_bit(buf[i / 8], i % 8, on, j % 8);
    }
}

/// Filling a run of bits gives each bit of the run its value and leaves
/// every other bit.
pub proof fn lemma_filled(buf: Seq<u8>, start: int, on: bool, count: nat, j: int)
    ensures
        bit_at(filled(buf, start, on, count), j) == if start <= j < start + count && 0 <= j < 8
            * buf.len() {
            on
        } else {
            bit_at(buf, j)
        },
    decreases count,
{
    if count > 0 {
        let before = filled(buf, start, on, (count - 1) as nat);
        lemma_filled(buf, start, on, (count - 1) as nat, j);
        lemma_filled_keeps_length(buf, start, on, (count - 1) as nat);
        lemma_with_bit(before, start + count - 1, on, j);
    }
}

/// Writing a number in front of `end` gives the bit `k` places in front of
/// `end` bit `k - 1` of the number, and leaves every bit outside the run.
pub proof fn lemma_numbered(buf: Seq<u8>, end: int, number: int, count: nat, j: int)
    ensures
        bit_at(numbered(buf, end, number, count), j) == if end - count <= j < end && 0 <= j < 8
            * buf.len() {
            bit_of(number, (end - 1 - j) as nat)
        } else {
            bit_at(buf, j)
        },
    decreases count,
{
    if count > 0 {
        let before = numbered(buf, end, number, (count - 1) as nat);
        lemma_numbered(buf, end, number, (count - 1) as nat, j);
        lemma_numbered_keeps_length(buf, end, number, (count - 1) as nat);
        lemma_with_bit(before, end - count, bit_of(number, (count - 1) as nat), j);
    }
}

/// The value that a control gives bit `j` of its range, where the bit was
/// `was` before: a toggle its state, a ranged control the bit of its number
/// that belongs there. An unsigned control whose number is zero leaves the
/// bit as it was.
pub open spec fn control_bit(control: ControlModel, j: int, was: bool) -> bool {
    let level = clamped(control.level);
    match control.kind {
        ValueKind::Toggle => level > LEVEL_EPSILON,
        ValueKind::Unsigned { lo, hi } => {
            let number = unsigned_of(scaled(lo, hi, level));
            if number == 0 {
                was
            } else {
                bit_of(number, (control.end - 1 - j) as nat)
            }
        },
        ValueKind::Signed { lo, hi } => bit_of(
            scaled(lo, hi, level),
            (control.end - 1 - j) as nat,
        ),
    }
}

/// Writing a control gives each bit of its range the value that
/// `control_bit` names, and leaves every bit outside its range.
pub proof fn lemma_control_written(buf: Seq<u8>, control: ControlModel, j: int)
    ensures
        bit_at(control_written(buf, control), j) == if control.covers(j) && 0 <= j < 8
            * buf.len() {
            control_bit(control, j, bit_at(buf, j))
        } else {
            bit_at(buf, j)
        },
{
    let level = clamped(control.level);
    let width = control.width() as nat;
    match control.kind {
        ValueKind::Toggle => {
            lemma_filled(buf, control.start, level > LEVEL_EPSILON, width, j);
        },
        ValueKind::Unsigned { lo, hi } => {
            lemma_numbered(buf, control.end, unsigned_of(scaled(lo, hi, level)), width, j);
        },
        ValueKind::Signed { lo, hi } => {
            lemma_numbered(buf, control.end, scaled(lo, hi, level), width, j);
        },
    }
}

/// Writing controls changes no length.
pub proof fn lemma_controls_keep_length(buf: Seq<u8>, outputs: Seq<ControlModel>, upto: nat)
    ensures
        controls_written(buf, outputs, upto).len() == buf.len(),
    decreases upto,
{
    if upto > 0 && upto <= outputs.len() {
        lemma_controls_keep_length(buf, outputs, (upto - 1) as nat);
        lemma_control_keeps_length(
            controls_written(buf, outputs, (upto - 1) as nat),
            outputs[upto - 1],
        );
    }
}

/// Whether none of the first `upto` controls has bit `j` in its range.
pub open spec fn uncovered(outputs: Seq<ControlModel>, upto: nat, j: int) -> bool {
    forall|k: int| 0 <= k < upto ==> !(#[trigger] outputs[k]).covers(j)
}

/// Where no two controls share a bit, the first `upto` controls written one
/// after the other leave in each bit of a control's range what that control
/// alone would have put there, and leave every other bit.
pub proof fn lemma_controls_written(buf: Seq<u8>, outputs: Seq<ControlModel>, upto: nat)
    requires
        upto <= outputs.len(),
        forall|a: int, b: int|
            0 <= a < b < outputs.len() ==> (#[trigger] outputs[a]).disjoint_from(
                #[trigger] outputs[b],
            ),
    ensures
        forall|k: int, j: int|
            0 <= k < upto && (#[trigger] outputs[k]).covers(j) && 0 <= j < 8 * buf.len()
                ==> #[trigger] bit_at(controls_written(buf, outputs, upto), j) == control_bit(
                outputs[k],
                j,
                bit_at(buf, j),
            ),
        forall|j: int|
            uncovered(outputs, upto, j) ==> #[trigger] bit_at(
                controls_written(buf, outputs, upto),
                j,
            ) == bit_at(buf, j),
    decreases upto,
{
    if upto > 0 {
        let before = controls_written(buf, outputs, (upto - 1) as nat);
        let last = outputs[upto - 1];
        let after = controls_written(buf, outputs, upto);
        lemma_controls_written(buf, outputs, (upto - 1) as nat);
        lemma_controls_keep_length(buf, outputs, (upto - 1) as nat);
        assert forall|j: int| uncovered(outputs, upto, j) implies #[trigger] bit_at(after, j)
            == bit_at(buf, j) by {
            lemma_control_written(before, last, j);
            assert(!outputs[upto - 1].covers(j));
            assert(uncovered(outputs, (upto - 1) as nat, j));
        }
        assert forall|k: int, j: int|
            0 <= k < upto && (#[trigger] outputs[k]).covers(j) && 0 <= j < 8
                * buf.len() implies #[trigger] bit_at(after, j) == control_bit(
            outputs[k],
            j,
            bit_at(buf, j),
        ) by {
            lemma_control_written(before, last, j);
            if k == upto - 1 {
                assert forall|e: int| 0 <= e < upto - 1 implies !(#[trigger] outputs[e]).covers(
                    j,
                ) by {
                    assert(outputs[e].disjoint_from(outputs[k]));
                    assert(!(outputs[e].covers(j) && outputs[k].covers(j)));
                }
                assert(uncovered(outputs, (upto - 1) as nat, j));
            } else {
                assert(outputs[k].disjoint_from(last));
                assert(!(outputs[k].covers(j) && last.covers(j)));
            }
        }
    }
}

/// The bits of a report before any control is written: the report's number
/// in the first eight, nothing after.
pub proof fn lemma_blank(id: u32, size_in_bits: nat, j: int)
    ensures
        blank(id, size_in_bits).len() == bytes_for(size_in_bits),
        j >= 8 ==> !bit_at(blank(id, size_in_bits), j),
        id % 256 == 0 ==> !bit_at(blank(id, size_in_bits), j),
{
}

/// The encoding of a report in which no two controls share a bit, bit by
/// bit: a bit in the range of a control holds what `control_bit` names for
/// that control, and a bit in the range of none holds what the blank buffer
/// holds there.
pub proof fn lemma_encoded_bits(report: ReportModel)
    requires
        report.pairwise_disjoint(),
    ensures
        encoded(report).len() == bytes_for(report.size_in_bits),
        forall|k: int, j: int|
            0 <= k < report.outputs.len() && (#[trigger] report.outputs[k]).covers(j) && 0 <= j
                < 8 * bytes_for(report.size_in_bits) ==> #[trigger] bit_at(encoded(report), j)
                == control_bit(
                report.outputs[k],
                j,
                bit_at(blank(report.id, report.size_in_bits), j),
            ),
        forall|j: int|
            uncovered(report.outputs, report.outputs.len(), j) ==> #[trigger] bit_at(
                encoded(report),
                j,
            ) == bit_at(blank(report.id, report.size_in_bits), j),
{
    let start = blank(report.id, report.size_in_bits);
    lemma_controls_written(start, report.outputs, report.outputs.len());
    lemma_controls_keep_length(start, report.outputs, report.outputs.len());
}

/// Writing a control at a level is writing it at that level brought into
/// the range from zero to one.
pub proof fn lemma_control_clamps(buf: Seq<u8>, control: ControlModel)
    ensures
        control_written(buf, control) == control_written(
            buf,
            control.at_level(clamped(control.level)),
        ),
        clamped(-LEVEL_ONE as int) == clamped(0),
        clamped(2 * LEVEL_ONE) == clamped(LEVEL_ONE as int),
{
}

/// Whether two reports differ at most in the levels of their controls, and
/// there only by what clamping takes away.
pub open spec fn same_but_for_clamping(a: ReportModel, b: ReportModel) -> bool {
    &&& a.id == b.id
    &&& a.size_in_bits == b.size_in_bits
    &&& a.outputs.len() == b.outputs.len()
    &&& forall|i: int|
        0 <= i < a.outputs.len() ==> (#[trigger] b.outputs[i]) == a.outputs[i].at_level(
            b.outputs[i].level,
        ) && clamped(a.outputs[i].level) == clamped(b.outputs[i].level)
}

/// The first `upto` controls of two reports that differ only by clamping
/// write the same.
pub proof fn lemma_written_clamps(buf: Seq<u8>, a: ReportModel, b: ReportModel, upto: nat)
    requires
        same_but_for_clamping(a, b),
        upto <= a.outputs.len(),
    ensures
        controls_written(buf, a.outputs, upto) == controls_written(buf, b.outputs, upto),
    decreases upto,
{
    if upto > 0 {
        lemma_written_clamps(buf, a, b, (upto - 1) as nat);
        let before = controls_written(buf, a.outputs, (upto - 1) as nat);
        assert(b.outputs[upto - 1] == a.outputs[upto - 1].at_level(b.outputs[upto - 1].level));
        lemma_control_clamps(before, a.outputs[upto - 1]);
        lemma_control_clamps(before, b.outputs[upto - 1]);
    }
}

/// Clamping: a level below zero is sent as zero and a level above one as
/// one, for every kind of control. Two reports that differ only in levels
/// which clamp to the same are sent as the same bytes.
pub proof fn lemma_encoding_clamps(a: ReportModel, b: ReportModel)
    requires
        same_but_for_clamping(a, b),
    ensures
        encoded(a) == encoded(b),
{
    lemma_written_clamps(blank(a.id, a.size_in_bits), a, b, a.outputs.len());
}

/// Zero writes nothing: an unsigned control whose lower bound is zero, at
/// level zero or below, leaves the buffer as it was.
pub proof fn lemma_zero_writes_nothing(buf: Seq<u8>, control: ControlModel)
    requires
        control.kind matches ValueKind::Unsigned { lo, .. } && lo == 0,
        control.level <= 0,
    ensures
        control_written(buf, control) == buf,
{
}

/// In the encoding of a report in which no two controls share a bit, the
/// range of an unsigned control with the lower bound zero, at level zero or
/// below, holds no set bit behind the first byte; and none in the first
/// byte either where the report's number is zero.
pub proof fn lemma_zero_stays_clear(report: ReportModel, k: int, j: int)
    requires
        report.pairwise_disjoint(),
        0 <= k < report.outputs.len(),
        report.outputs[k].kind matches ValueKind::Unsigned { lo, .. } && lo == 0,
        report.outputs[k].level <= 0,
        report.outputs[k].covers(j),
        j >= 8 || report.id % 256 == 0,
    ensures
        !bit_at(encoded(report), j),
{
    lemma_encoded_bits(report);
    lemma_blank(report.id, report.size_in_bits, j);
    if 0 <= j < 8 * bytes_for(report.size_in_bits) {
        assert(bit_at(encoded(report), j) == control_bit(
            report.outputs[k],
            j,
            bit_at(blank(report.id, report.size_in_bits), j),
        ));
    }
}

} // verus!
