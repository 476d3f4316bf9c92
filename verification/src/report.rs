//! Reports and the controls in them.

use std::ops::{Range, RangeInclusive};
use vstd::prelude::*;

verus! {

/// One whole, in the units in which a level is held: a level is a fraction
/// with 24 binary places, as fine as a single-precision number just below one.
pub const LEVEL_ONE: i32 = 0x0100_0000;

/// The level that a toggle has to exceed to count as on: two units, 2^-23.
pub const LEVEL_EPSILON: i32 = 2;

/// The lower bound that `RangeInclusive::start` of std returns: the one that
/// the range holds.
pub assume_specification<Idx>[ RangeInclusive::<Idx>::start ](
    range: &RangeInclusive<Idx>,
) -> (bound: &Idx)
    ensures
        *bound == range@.start,
;

/// The upper bound that `RangeInclusive::end` of std returns: the one that the
/// range holds.
pub assume_specification<Idx>[ RangeInclusive::<Idx>::end ](range: &RangeInclusive<Idx>) -> (bound:
    &Idx)
    ensures
        *bound == range@.end,
;

/// How the level of a control becomes bits.
#[derive(Debug)]
pub enum DeviceOutputValue {
    /// On or off.
    Toggle,
    /// A number between two logical bounds, sent in two's complement.
    Signed(RangeInclusive<i32>),
    /// A number between two logical bounds, sent as it is.
    Unsigned(RangeInclusive<i32>),
}

/// A kind of control, with its logical bounds as numbers.
pub enum ValueKind {
    Toggle,
    Signed { lo: int, hi: int },
    Unsigned { lo: int, hi: int },
}

impl View for DeviceOutputValue {
    type V = ValueKind;

    open spec fn view(&self) -> ValueKind {
        match self {
            DeviceOutputValue::Toggle => ValueKind::Toggle,
            DeviceOutputValue::Signed(range) => ValueKind::Signed {
                lo: range@.start as int,
                hi: range@.end as int,
            },
            DeviceOutputValue::Unsigned(range) => ValueKind::Unsigned {
                lo: range@.start as int,
                hi: range@.end as int,
            },
        }
    }
}

/// The kind that a field or a slot of `width` bits with the given logical
/// bounds gets: one bit is a toggle whatever the bounds say.
pub open spec fn kind_for(width: int, lo: int, hi: int) -> ValueKind {
    if width == 1 {
        ValueKind::Toggle
    } else {
        ValueKind::Unsigned { lo, hi }
    }
}

/// The text of an optional string.
pub open spec fn text_of(s: Option<String>) -> Option<Seq<char>> {
    match s {
        Some(t) => Some(t@),
        None => None,
    }
}

/// A control as a plain value.
pub struct ControlModel {
    pub kind: ValueKind,
    /// The level, in units of which `LEVEL_ONE` make one.
    pub level: int,
    /// The first bit of the control in the report.
    pub start: int,
    /// The bit after its last.
    pub end: int,
    pub name: Option<Seq<char>>,
}

impl ControlModel {
    /// The number of bits of the control.
    pub open spec fn width(&self) -> int {
        if self.end > self.start {
            self.end - self.start
        } else {
            0
        }
    }

    /// Whether bit `i` of the report belongs to the control.
    pub open spec fn covers(&self, i: int) -> bool {
        self.start <= i < self.end
    }

    /// Whether no bit belongs to both controls.
    pub open spec fn disjoint_from(&self, other: ControlModel) -> bool {
        forall|i: int| !(#[trigger] self.covers(i) && other.covers(i))
    }

    /// The same control at another level.
    pub open spec fn at_level(&self, level: int) -> ControlModel {
        ControlModel { level, ..*self }
    }
}

/// One control of a device: a range of bits in a report, and how a level is
/// written into them.
#[derive(Debug)]
pub struct DeviceOutput {
    /// How the level becomes bits.
    pub kind: DeviceOutputValue,
    /// The level to send, in units of which `LEVEL_ONE` make one. Anything
    /// below zero is sent as zero, anything above one as one.
    pub real_value: i32,
    /// The bits of the report that the control occupies: bit 0 is the most
    /// significant bit of the first byte.
    pub bits: Range<u32>,
    /// What to call the control.
    pub name: Option<String>,
}

impl DeviceOutput {
    /// A control over `bits` of the given kind, at level zero.
    pub fn new(kind: DeviceOutputValue, bits: Range<u32>, name: Option<String>) -> (r: DeviceOutput)
        ensures
            r.kind == kind,
            r.bits == bits,
            r.real_value == 0,
            r.name == name,
    {
        DeviceOutput { kind, real_value: 0, bits, name }
    }

    /// The control that a field or a slot over `bits` with the logical bounds
    /// `lo` and `hi` becomes: a toggle where it is one bit wide, else an
    /// unsigned number. It starts at level zero.
    pub fn for_field(bits: Range<u32>, lo: i32, hi: i32, name: Option<String>) -> (r: DeviceOutput)
        ensures
            r@ == (ControlModel {
                kind: kind_for(bits.end - bits.start, lo as int, hi as int),
                level: 0,
                start: bits.start as int,
                end: bits.end as int,
                name: text_of(name),
            }),
            r.bits == bits,
            r.real_value == 0,
            r.name == name,
    {
        let kind = if bits.start < bits.end && bits.end - bits.start == 1 {
            DeviceOutputValue::Toggle
        } else {
            DeviceOutputValue::Unsigned(lo..=hi)
        };
        DeviceOutput { kind, real_value: 0, bits, name }
    }

    /// How the level becomes bits.
    pub fn kind(&self) -> (r: &DeviceOutputValue)
        ensures
            *r == self.kind,
    {
        &self.kind
    }

    /// The bits of the report that the control occupies.
    pub fn bits(&self) -> (r: Range<u32>)
        ensures
            r == self.bits,
    {
        self.bits.start..self.bits.end
    }

    pub open spec fn spec_is_toggle(&self) -> bool {
        self@.kind is Toggle
    }

    /// Whether the control is on or off, with nothing between.
    #[verifier::when_used_as_spec(spec_is_toggle)]
    pub fn is_toggle(&self) -> (r: bool)
        ensures
            r == (self@.kind is Toggle),
    {
        matches!(self.kind, DeviceOutputValue::Toggle)
    }
}

impl View for DeviceOutput {
    type V = ControlModel;

    open spec fn view(&self) -> ControlModel {
        ControlModel {
            kind: self.kind@,
            level: self.real_value as int,
            start: self.bits.start as int,
            end: self.bits.end as int,
            name: text_of(self.name),
        }
    }
}

/// A report as a plain value.
pub struct ReportModel {
    pub id: u32,
    pub size_in_bits: nat,
    pub outputs: Seq<ControlModel>,
}

impl ReportModel {
    /// Whether every control lies within the report.
    pub open spec fn in_bounds(&self) -> bool {
        forall|i: int|
            0 <= i < self.outputs.len() ==> 0 <= (#[trigger] self.outputs[i]).start
                <= self.outputs[i].end <= self.size_in_bits
    }

    /// Whether no two controls share a bit.
    pub open spec fn pairwise_disjoint(&self) -> bool {
        forall|i: int, j: int|
            0 <= i < j < self.outputs.len() ==> (#[trigger] self.outputs[i]).disjoint_from(
                #[trigger] self.outputs[j],
            )
    }
}

/// One output report of a device, with its controls in the order in which the
/// descriptor declares them.
#[derive(Debug)]
pub struct Report {
    /// The number of the report: 0 where the device numbers none.
    pub id: u32,
    /// The controls. A caller sets their levels before the report is encoded.
    pub outputs: Vec<DeviceOutput>,
    /// The number of bits in the report.
    pub size_in_bits: usize,
}

impl Report {
    /// A report of `size_in_bits` bits with the number `id`: 0 where the
    /// device numbers none.
    pub fn new(id: u32, size_in_bits: usize, outputs: Vec<DeviceOutput>) -> (r: Report)
        ensures
            r.id == id,
            r.size_in_bits == size_in_bits,
            r.outputs == outputs,
    {
        Report { id, outputs, size_in_bits }
    }

    /// The number of the report.
    pub fn id(&self) -> (r: u32)
        ensures
            r == self.id,
    {
        self.id
    }

    /// The number of bits in the report.
    pub fn size_in_bits(&self) -> (r: usize)
        ensures
            r == self.size_in_bits,
    {
        self.size_in_bits
    }
}

/// The controls of a list as plain values.
pub open spec fn controls_of(outputs: Seq<DeviceOutput>) -> Seq<ControlModel> {
    outputs.map_values(|c: DeviceOutput| c@)
}

impl View for Report {
    type V = ReportModel;

    open spec fn view(&self) -> ReportModel {
        ReportModel {
            id: self.id,
            size_in_bits: self.size_in_bits as nat,
            outputs: controls_of(self.outputs@),
        }
    }
}

/// The reports of a list as plain values.
pub open spec fn reports_of(reports: Seq<Report>) -> Seq<ReportModel> {
    reports.map_values(|r: Report| r@)
}

} // verus!
