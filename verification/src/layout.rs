//! The fields of an output report, as a report descriptor declares them.

use crate::usage::Usage;
use std::ops::{Range, RangeInclusive};
use vstd::prelude::*;

verus! {

/// A run of string indices, both ends included. It is empty where `first` is
/// above `last`.
#[derive(Debug, Clone, Copy, PartialEq, Eq, Structural)]
pub struct StringRange {
    pub first: u32,
    pub last: u32,
}

impl StringRange {
    /// The run that an inclusive range of indices holds.
    pub fn from_run(run: RangeInclusive<u32>) -> (r: StringRange)
        ensures
            r.first == run@.start,
            r.last == run@.end,
    {
        StringRange { first: *run.start(), last: *run.end() }
    }

    /// The first index of the run, if it has one.
    pub open spec fn spec_head(&self) -> Option<u32> {
        if self.first <= self.last {
            Some(self.first)
        } else {
            None
        }
    }

    /// The first index of the run, if it has one.
    #[verifier::when_used_as_spec(spec_head)]
    pub fn head(&self) -> (r: Option<u32>)
        ensures
            r == self.spec_head(),
    {
        if self.first <= self.last {
            Some(self.first)
        } else {
            None
        }
    }
}

/// A field that holds one value.
#[derive(Debug)]
pub struct VariableField {
    /// The bits of the report that the field occupies.
    pub bits: Range<u32>,
    pub usage: Usage,
    pub logical_minimum: i32,
    pub logical_maximum: i32,
    /// The index of the device's own name for the field, if it has one.
    pub string_index: Option<u32>,
    /// Whether the descriptor marks the field as a variable, not an array.
    pub variable: bool,
}

/// A field whose bits are shared out among the usages that it declares.
#[derive(Debug)]
pub struct ArrayField {
    /// The bits of the report that the field occupies.
    pub bits: Range<u32>,
    /// One usage for each slot of the field.
    pub usage_list: Vec<Usage>,
    /// The first designator of each run that the field declares.
    pub designator_list: Vec<u32>,
    /// The strings of the slots, in the order of the usages.
    pub string_list: Vec<StringRange>,
    pub logical_minimum: i32,
    pub logical_maximum: i32,
}

/// Bits that carry nothing.
#[derive(Debug)]
pub struct PaddingField {
    pub bits: Range<u32>,
}

/// An array field as a plain value.
pub struct ArrayModel {
    pub bits: Range<u32>,
    pub usage_list: Seq<Usage>,
    pub designator_list: Seq<u32>,
    pub string_list: Seq<StringRange>,
    pub logical_minimum: i32,
    pub logical_maximum: i32,
}

impl View for ArrayField {
    type V = ArrayModel;

    open spec fn view(&self) -> ArrayModel {
        ArrayModel {
            bits: self.bits,
            usage_list: self.usage_list@,
            designator_list: self.designator_list@,
            string_list: self.string_list@,
            logical_minimum: self.logical_minimum,
            logical_maximum: self.logical_maximum,
        }
    }
}

/// One field of an output report.
#[derive(Debug)]
pub enum OutputField {
    Variable(VariableField),
    Array(ArrayField),
    Padding(PaddingField),
}

/// A field as a plain value.
pub enum FieldModel {
    Variable(VariableField),
    Array(ArrayModel),
    Padding(PaddingField),
}

impl FieldModel {
    /// The bits of the report that the field occupies.
    pub open spec fn bits(self) -> Range<u32> {
        match self {
            FieldModel::Variable(f) => f.bits,
            FieldModel::Array(f) => f.bits,
            FieldModel::Padding(f) => f.bits,
        }
    }
}

impl View for OutputField {
    type V = FieldModel;

    open spec fn view(&self) -> FieldModel {
        match self {
            OutputField::Variable(f) => FieldModel::Variable(*f),
            OutputField::Array(f) => FieldModel::Array(f@),
            OutputField::Padding(f) => FieldModel::Padding(*f),
        }
    }
}

impl OutputField {
    /// The bits of the report that the field occupies.
    pub open spec fn spec_bits(&self) -> Range<u32> {
        match self {
            OutputField::Variable(f) => f.bits,
            OutputField::Array(f) => f.bits,
            OutputField::Padding(f) => f.bits,
        }
    }

    /// The bits of the report that the field occupies.
    pub fn bits(&self) -> (r: Range<u32>)
        ensures
            r == self.spec_bits(),
    {
        match self {
            OutputField::Variable(f) => f.bits.start..f.bits.end,
            OutputField::Array(f) => f.bits.start..f.bits.end,
            OutputField::Padding(f) => f.bits.start..f.bits.end,
        }
    }
}

/// An output report as a descriptor declares it.
#[derive(Debug)]
pub struct OutputReport {
    /// The number of the report, where the device numbers its reports.
    pub report_id: Option<u32>,
    pub size_in_bits: usize,
    pub fields: Vec<OutputField>,
}

/// Whether no bit lies in both ranges.
pub open spec fn ranges_apart(a: Range<u32>, b: Range<u32>) -> bool {
    a.start >= a.end || b.start >= b.end || a.end <= b.start || b.end <= a.start
}

impl OutputReport {
    /// The number under which the report is sent.
    pub open spec fn spec_id(&self) -> u32 {
        match self.report_id {
            Some(id) => id,
            None => 0,
        }
    }

    /// The number under which the report is sent: 0 where the device numbers
    /// none.
    #[verifier::when_used_as_spec(spec_id)]
    pub fn id(&self) -> (r: u32)
        ensures
            r == self.spec_id(),
    {
        match self.report_id {
            Some(id) => id,
            None => 0,
        }
    }

    /// Whether the fields lie within the report and no two of them share a
    /// bit.
    pub open spec fn well_laid_out(&self) -> bool {
        &&& forall|i: int|
            0 <= i < self.fields@.len() ==> {
                let bits = (#[trigger] self.fields@[i]).spec_bits();
                bits.start <= bits.end <= self.size_in_bits
            }
        &&& forall|i: int, j: int|
            0 <= i < j < self.fields@.len() ==> ranges_apart(
                (#[trigger] self.fields@[i]).spec_bits(),
                (#[trigger] self.fields@[j]).spec_bits(),
            )
    }

    /// Whether the fields lie within the report and no two of them share a
    /// bit.
    pub fn is_well_laid_out(&self) -> (r: bool)
        ensures
            r == self.well_laid_out(),
    {
        let mut i: usize = 0;
        while i < self.fields.len()
            invariant
                i <= self.fields@.len(),
                forall|a: int|
                    0 <= a < i ==> {
                        let bits = (#[trigger] self.fields@[a]).spec_bits();
                        bits.start <= bits.end <= self.size_in_bits
                    },
                forall|a: int, b: int|
                    0 <= a < b < i ==> ranges_apart(
                        (#[trigger] self.fields@[a]).spec_bits(),
                        (#[trigger] self.fields@[b]).spec_bits(),
                    ),
            decreases self.fields@.len() - i,
        {
            let bits = self.fields[i].bits();
            if bits.start > bits.end || bits.end as usize > self.size_in_bits {
                return false;
            }
            let mut j: usize = 0;
            while j < i
                invariant
                    j <= i < self.fields@.len(),
                    bits == self.fields@[i as int].spec_bits(),
                    forall|a: int|
                        0 <= a < j ==> ranges_apart(
                            (#[trigger] self.fields@[a]).spec_bits(),
                            bits,
                        ),
                decreases i - j,
            {
                let other = self.fields[j].bits();
                let apart = other.start >= other.end || bits.start >= bits.end || other.end
                    <= bits.start || bits.end <= other.start;
                if !apart {
                    return false;
                }
                j += 1;
            }
            i += 1;
        }
        true
    }
}

} // verus!
