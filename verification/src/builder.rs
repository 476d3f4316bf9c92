//! From the fields of a report to its controls.

use crate::layout::{ArrayField, OutputField, OutputReport, VariableField};
use crate::names::{
    device_text, indexed_name, settled_name, slot_name, with_position, DeviceStrings,
};
use crate::report::{
    controls_of, kind_for, reports_of, ControlModel, DeviceOutput, Report, ReportModel,
};
use crate::usage::{entry_is_vendor, entry_name, table_entry, usage_table_entry, vendor_entry, Usage};
use vstd::prelude::*;

verus! {

/// Whether a usage is kept from the caller.
pub open spec fn hidden(usage: Usage) -> bool {
    entry_is_vendor(usage_table_entry(usage.page, usage.id))
}

/// The name of a field or a slot with the string index `index` and the usage
/// `usage`, given the strings of the device.
pub open spec fn field_name(strings: Map<u32, Seq<char>>, index: Option<u32>, usage: Usage) -> Seq<
    char,
> {
    settled_name(device_text(strings, index), entry_name(usage_table_entry(usage.page, usage.id)))
}

/// The control that a variable field becomes: none where its usage is hidden
/// or the field is not marked as a variable.
pub open spec fn variable_output(field: VariableField, strings: Map<u32, Seq<char>>) -> Option<
    ControlModel,
> {
    if hidden(field.usage) || !field.variable {
        None
    } else {
        Some(
            ControlModel {
                kind: kind_for(
                    field.bits.end - field.bits.start,
                    field.logical_minimum as int,
                    field.logical_maximum as int,
                ),
                level: 0,
                start: field.bits.start as int,
                end: field.bits.end as int,
                name: Some(field_name(strings, field.string_index, field.usage)),
            },
        )
    }
}

/// The number of bits in the field: none where its end lies before its start.
pub open spec fn span_of(field: ArrayField) -> nat {
    if field.bits.end > field.bits.start {
        (field.bits.end - field.bits.start) as nat
    } else {
        0
    }
}

/// The number of bits of each slot of an array field: its bits shared out
/// evenly among its usages, what is left over going to none.
pub open spec fn slot_width(field: ArrayField) -> nat {
    if field.usage_list@.len() == 0 {
        0
    } else {
        span_of(field) / field.usage_list@.len()
    }
}

/// The string index of slot `i`: the first of the run at that place in the
/// list of strings, where there is one.
pub open spec fn slot_string(field: ArrayField, i: int) -> Option<u32> {
    if 0 <= i < field.string_list@.len() {
        field.string_list@[i].spec_head()
    } else {
        None
    }
}

/// The control of slot `i` of an array field, whether shown or not.
pub open spec fn slot_output(field: ArrayField, strings: Map<u32, Seq<char>>, i: int) -> ControlModel
    recommends
        0 <= i < field.usage_list@.len(),
{
    let width = slot_width(field);
    ControlModel {
        kind: kind_for(width as int, field.logical_minimum as int, field.logical_maximum as int),
        level: 0,
        start: field.bits.start + i * width,
        end: field.bits.start + (i + 1) * width,
        name: Some(
            slot_name(field_name(strings, slot_string(field, i), field.usage_list@[i]), i as nat),
        ),
    }
}

/// The controls of the first `upto` slots of an array field: one for each
/// slot whose usage is not hidden, in the order of the slots.
pub open spec fn array_outputs(field: ArrayField, strings: Map<u32, Seq<char>>, upto: nat) -> Seq<
    ControlModel,
>
    decreases upto,
{
    if upto == 0 || upto > field.usage_list@.len() {
        Seq::empty()
    } else {
        let before = array_outputs(field, strings, (upto - 1) as nat);
        if hidden(field.usage_list@[upto - 1]) {
            before
        } else {
            before.push(slot_output(field, strings, upto - 1))
        }
    }
}

/// The controls of one field.
pub open spec fn field_outputs(field: OutputField, strings: Map<u32, Seq<char>>) -> Seq<
    ControlModel,
> {
    match field {
        OutputField::Variable(f) => match variable_output(f, strings) {
            Some(control) => seq![control],
            None => Seq::empty(),
        },
        OutputField::Array(f) => array_outputs(f, strings, f.usage_list@.len()),
        OutputField::Padding(_) => Seq::empty(),
    }
}

/// The controls of the first `upto` fields of a report, in the order of the
/// fields.
pub open spec fn fields_outputs(
    fields: Seq<OutputField>,
    strings: Map<u32, Seq<char>>,
    upto: nat,
) -> Seq<ControlModel>
    decreases upto,
{
    if upto == 0 || upto > fields.len() {
        Seq::empty()
    } else {
        fields_outputs(fields, strings, (upto - 1) as nat) + field_outputs(fields[upto - 1], strings)
    }
}

/// All the controls of a report.
pub open spec fn report_outputs(report: OutputReport, strings: Map<u32, Seq<char>>) -> Seq<
    ControlModel,
> {
    fields_outputs(report.fields@, strings, report.fields@.len())
}

/// The report that is built from a declared one: none where it has no
/// control to show.
pub open spec fn built_report(report: OutputReport, strings: Map<u32, Seq<char>>) -> Option<
    ReportModel,
> {
    let outputs = report_outputs(report, strings);
    if outputs.len() == 0 {
        None
    } else {
        Some(
            ReportModel {
                id: report.spec_id(),
                size_in_bits: report.size_in_bits as nat,
                outputs,
            },
        )
    }
}

/// The reports built from the first `upto` declared ones, in their order.
pub open spec fn built_reports(
    layout: Seq<OutputReport>,
    strings: Map<u32, Seq<char>>,
    upto: nat,
) -> Seq<ReportModel>
    decreases upto,
{
    if upto == 0 || upto > layout.len() {
        Seq::empty()
    } else {
        let before = built_reports(layout, strings, (upto - 1) as nat);
        match built_report(layout[upto - 1], strings) {
            Some(report) => before.push(report),
            None => before,
        }
    }
}

/// The name of a field or a slot: the device's string under `index`, else
/// the name from the usage tables, else the fallback.
pub fn name_of(index: Option<u32>, strings: &DeviceStrings, usage: Usage) -> (r: String)
    ensures
        r@ == field_name(strings@, index, usage),
{
    match indexed_name(index, strings, usage) {
        Some(name) => name,
        None => "Unk".to_owned(),
    }
}

/// Whether a usage is kept from the caller.
pub fn is_hidden(usage: Usage) -> (r: bool)
    ensures
        r == hidden(usage),
{
    let entry = table_entry(usage.page, usage.id);
    vendor_entry(&entry)
}

/// The control of a variable field, if it is shown.
pub fn variable_control(field: &VariableField, strings: &DeviceStrings) -> (r: Option<DeviceOutput>)
    ensures
        match r {
            Some(control) => variable_output(*field, strings@) == Some(control@),
            None => variable_output(*field, strings@).is_none(),
        },
{
    if is_hidden(field.usage) || !field.variable {
        return None;
    }
    let name = name_of(field.string_index, strings, field.usage);
    Some(
        DeviceOutput::for_field(
            field.bits.start..field.bits.end,
            field.logical_minimum,
            field.logical_maximum,
            Some(name),
        ),
    )
}

/// Appends the controls of an array field to `outputs`.
pub fn array_controls(field: &ArrayField, strings: &DeviceStrings, outputs: &mut Vec<DeviceOutput>)
    ensures
        controls_of(final(outputs)@) == controls_of(old(outputs)@) + array_outputs(
            *field,
            strings@,
            field.usage_list@.len(),
        ),
{
    let count = field.usage_list.len();
    let span: u32 = if field.bits.end > field.bits.start {
        field.bits.end - field.bits.start
    } else {
        0
    };
    let width: u32 = if count == 0 || count > span as usize {
        0
    } else {
        span / (count as u32)
    };
    proof {
        if count != 0 && count > span as usize {
            assert(span as int / count as int == 0) by (nonlinear_arith)
                requires
                    0 <= span < count,
            ;
        }
        assert(width == slot_width(*field));
        assert(count * width <= span) by (nonlinear_arith)
            requires
                width == 0 || (count > 0 && width == span as int / count as int),
                span >= 0,
                count >= 0,
        ;
        assert(controls_of(outputs@) + Seq::<ControlModel>::empty() =~= controls_of(outputs@));
    }
    let mut i: usize = 0;
    while i < count
        invariant
            i <= count == field.usage_list@.len(),
            width == slot_width(*field),
            span == span_of(*field),
            count * width <= span,
            controls_of(outputs@) == controls_of(old(outputs)@) + array_outputs(
                *field,
                strings@,
                i as nat,
            ),
        decreases count - i,
    {
        let usage = field.usage_list[i];
        if !is_hidden(usage) {
            let index = if i < field.string_list.len() {
                field.string_list[i].head()
            } else {
                None
            };
            let name = with_position(name_of(index, strings, usage), i);
            proof {
                assert(i * width <= count * width && (i + 1) * width <= count * width)
                    by (nonlinear_arith)
                    requires
                        0 <= i < count,
                        width >= 0,
                ;
                if width > 0 {
                    assert(i < count * width) by (nonlinear_arith)
                        requires
                            0 <= i < count,
                            width >= 1,
                    ;
                }
            }
            let offset: u32 = if width == 0 {
                0
            } else {
                (i as u32) * width
            };
            assert(offset == i * width) by (nonlinear_arith)
                requires
                    offset == if width == 0 {
                        0
                    } else {
                        i * width
                    },
            ;
            assert(offset + width == (i + 1) * width) by (nonlinear_arith)
                requires
                    offset == i * width,
            ;
            let start: u32 = field.bits.start + offset;
            let control = DeviceOutput::for_field(
                start..start + width,
                field.logical_minimum,
                field.logical_maximum,
                Some(name),
            );
            assert(control@ == slot_output(*field, strings@, i as int));
            let ghost before = outputs@;
            outputs.push(control);
            assert(controls_of(outputs@) =~= controls_of(before).push(control@));
        }
        i += 1;
    }
}

/// The controls of a declared report, in the order of its fields.
pub fn controls_for(report: &OutputReport, strings: &DeviceStrings) -> (r: Vec<DeviceOutput>)
    ensures
        controls_of(r@) == report_outputs(*report, strings@),
{
    let mut outputs: Vec<DeviceOutput> = Vec::new();
    assert(controls_of(outputs@) =~= Seq::<ControlModel>::empty());
    let mut i: usize = 0;
    while i < report.fields.len()
        invariant
            i <= report.fields@.len(),
            controls_of(outputs@) == fields_outputs(report.fields@, strings@, i as nat),
        decreases report.fields@.len() - i,
    {
        let ghost before = outputs@;
        match &report.fields[i] {
            OutputField::Variable(field) => {
                match variable_control(field, strings) {
                    Some(control) => {
                        outputs.push(control);
                        assert(controls_of(outputs@) =~= controls_of(before) + seq![control@]);
                    },
                    None => {
                        assert(controls_of(outputs@) =~= controls_of(before) + Seq::<
                            ControlModel,
                        >::empty());
                    },
                }
            },
            OutputField::Array(field) => {
                array_controls(field, strings, &mut outputs);
            },
            OutputField::Padding(_) => {
                assert(controls_of(outputs@) =~= controls_of(before) + Seq::<
                    ControlModel,
                >::empty());
            },
        }
        i += 1;
    }
    outputs
}

/// Builds the report for a declared one. A report without a control to show
/// is dropped.
pub fn build_report(report: &OutputReport, strings: &DeviceStrings) -> (r: Option<Report>)
    ensures
        match r {
            Some(built) => built_report(*report, strings@) == Some(built@),
            None => built_report(*report, strings@).is_none(),
        },
{
    let outputs = controls_for(report, strings);
    if outputs.len() == 0 {
        None
    } else {
        Some(Report::new(report.id(), report.size_in_bits, outputs))
    }
}

/// Builds the reports of a device from the output reports that its descriptor
/// declares and from its strings: for each declared report that has a control
/// to show, one report, in the order of the declaration.
pub fn build_reports(layout: &Vec<OutputReport>, strings: &DeviceStrings) -> (r: Vec<Report>)
    ensures
        reports_of(r@) == built_reports(layout@, strings@, layout@.len()),
{
    let mut reports: Vec<Report> = Vec::new();
    assert(reports_of(reports@) =~= Seq::<ReportModel>::empty());
    let mut i: usize = 0;
    while i < layout.len()
        invariant
            i <= layout@.len(),
            reports_of(reports@) == built_reports(layout@, strings@, i as nat),
        decreases layout@.len() - i,
    {
        match build_report(&layout[i], strings) {
            Some(report) => {
                let ghost before = reports@;
                reports.push(report);
                assert(reports_of(reports@) =~= reports_of(before).push(report@));
            },
            None => {},
        }
        i += 1;
    }
    reports
}

/// The string indices that the first `upto` slots of an array field name:
/// for each slot that is shown, the index of its string, where it has one.
pub open spec fn slot_indices(field: ArrayField, upto: nat) -> Seq<u32>
    decreases upto,
{
    if upto == 0 || upto > field.usage_list@.len() {
        Seq::empty()
    } else {
        let before = slot_indices(field, (upto - 1) as nat);
        if hidden(field.usage_list@[upto - 1]) {
            before
        } else {
            match slot_string(field, upto - 1) {
                Some(index) => before.push(index),
                None => before,
            }
        }
    }
}

/// The string indices that a field names for the controls that it shows.
pub open spec fn field_indices(field: OutputField) -> Seq<u32> {
    match field {
        OutputField::Variable(f) => if hidden(f.usage) || !f.variable {
            Seq::empty()
        } else {
            match f.string_index {
                Some(index) => seq![index],
                None => Seq::empty(),
            }
        },
        OutputField::Array(f) => slot_indices(f, f.usage_list@.len()),
        OutputField::Padding(_) => Seq::empty(),
    }
}

/// The string indices that the first `upto` fields name, in their order.
pub open spec fn fields_indices(fields: Seq<OutputField>, upto: nat) -> Seq<u32>
    decreases upto,
{
    if upto == 0 || upto > fields.len() {
        Seq::empty()
    } else {
        fields_indices(fields, (upto - 1) as nat) + field_indices(fields[upto - 1])
    }
}

/// The string indices that the first `upto` reports name, in their order.
pub open spec fn layout_indices(layout: Seq<OutputReport>, upto: nat) -> Seq<u32>
    decreases upto,
{
    if upto == 0 || upto > layout.len() {
        Seq::empty()
    } else {
        layout_indices(layout, (upto - 1) as nat) + fields_indices(
            layout[upto - 1].fields@,
            layout[upto - 1].fields@.len(),
        )
    }
}

/// Appends to `indices` the string indices that a field names for the
/// controls that it shows.
pub fn push_field_indices(field: &OutputField, indices: &mut Vec<u32>)
    ensures
        final(indices)@ == old(indices)@ + field_indices(*field),
{
    assert(indices@ =~= old(indices)@ + Seq::<u32>::empty());
    match field {
        OutputField::Variable(f) => {
            if !is_hidden(f.usage) && f.variable {
                match f.string_index {
                    Some(index) => {
                        indices.push(index);
                        assert(indices@ =~= old(indices)@ + seq![index]);
                    },
                    None => {},
                }
            }
        },
        OutputField::Array(f) => {
            let mut i: usize = 0;
            while i < f.usage_list.len()
                invariant
                    i <= f.usage_list@.len(),
                    indices@ == old(indices)@ + slot_indices(*f, i as nat),
                decreases f.usage_list@.len() - i,
            {
                if !is_hidden(f.usage_list[i]) && i < f.string_list.len() {
                    match f.string_list[i].head() {
                        Some(index) => {
                            indices.push(index);
                            assert(indices@ =~= old(indices)@ + slot_indices(*f, (i + 1) as nat));
                        },
                        None => {},
                    }
                }
                i += 1;
            }
        },
        OutputField::Padding(_) => {},
    }
}

/// The string indices that the declared reports name for the controls that
/// they show, in the order of the fields and slots: the strings to read from
/// the device before the reports are built, and no others.
pub fn string_indices(layout: &Vec<OutputReport>) -> (r: Vec<u32>)
    ensures
        r@ == layout_indices(layout@, layout@.len()),
{
    let mut indices: Vec<u32> = Vec::new();
    let mut i: usize = 0;
    while i < layout.len()
        invariant
            i <= layout@.len(),
            indices@ == layout_indices(layout@, i as nat),
        decreases layout@.len() - i,
    {
        let fields = &layout[i].fields;
        let ghost start = indices@;
        assert(indices@ =~= start + Seq::<u32>::empty());
        let mut j: usize = 0;
        while j < fields.len()
            invariant
                j <= fields@.len(),
                indices@ == start + fields_indices(fields@, j as nat),
            decreases fields@.len() - j,
        {
            let ghost before = indices@;
            push_field_indices(&fields[j], &mut indices);
            assert(indices@ =~= start + fields_indices(fields@, (j + 1) as nat));
            j += 1;
        }
        i += 1;
    }
    indices
}

} // verus!
