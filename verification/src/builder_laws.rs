//! What holds of the reports that are built, whatever the fields.

use crate::builder::{
    array_outputs, built_report, built_reports, field_indices, field_name, field_outputs,
    fields_indices, fields_outputs, hidden, layout_indices, report_outputs, slot_indices,
    slot_output, slot_string, slot_width, span_of, variable_output,
};
use crate::layout::{ranges_apart, ArrayField, OutputField, OutputReport, VariableField};
use crate::names::{device_text, string_at};
use crate::report::{ControlModel, ReportModel};
use crate::usage::{entry_name, usage_table_entry, Usage};
use std::ops::Range;
use vstd::prelude::*;

verus! {

/// Whether two tables of strings hold the same under each of the indices.
pub open spec fn same_strings_at(
    a: Map<u32, Seq<char>>,
    b: Map<u32, Seq<char>>,
    indices: Seq<u32>,
) -> bool {
    forall|k: int|
        0 <= k < indices.len() ==> string_at(a, #[trigger] indices[k]) == string_at(b, indices[k])
}

/// Tables that hold the same under the indices of a list hold the same under
/// those of each part of it.
pub proof fn lemma_same_strings_split(
    a: Map<u32, Seq<char>>,
    b: Map<u32, Seq<char>>,
    front: Seq<u32>,
    back: Seq<u32>,
)
    requires
        same_strings_at(a, b, front + back),
    ensures
        same_strings_at(a, b, front),
        same_strings_at(a, b, back),
{
    let all = front + back;
    assert forall|k: int| 0 <= k < front.len() implies string_at(a, #[trigger] front[k])
        == string_at(b, front[k]) by {
        assert(all[k] == front[k]);
    }
    assert forall|k: int| 0 <= k < back.len() implies string_at(a, #[trigger] back[k])
        == string_at(b, back[k]) by {
        assert(all[front.len() + k] == back[k]);
    }
}

/// The string index of a slot that is shown is among those of the slots.
pub proof fn lemma_slot_string_is_listed(field: ArrayField, upto: nat, i: int)
    requires
        0 <= i < upto <= field.usage_list@.len(),
        !hidden(field.usage_list@[i]),
        slot_string(field, i).is_some(),
    ensures
        slot_indices(field, upto).contains(slot_string(field, i).unwrap()),
    decreases upto,
{
    let before = slot_indices(field, (upto - 1) as nat);
    let all = slot_indices(field, upto);
    if i == upto - 1 {
        assert(all[before.len() as int] == slot_string(field, i).unwrap());
    } else {
        lemma_slot_string_is_listed(field, (upto - 1) as nat, i);
        let k = choose|k: int| 0 <= k < before.len() && before[k] == slot_string(field, i).unwrap();
        assert(all[k] == before[k]);
    }
}

/// The first `upto` slots of an array field give the same controls with two
/// tables of strings that hold the same under the indices of the field.
pub proof fn lemma_slots_need_listed_strings(
    field: ArrayField,
    a: Map<u32, Seq<char>>,
    b: Map<u32, Seq<char>>,
    upto: nat,
)
    requires
        upto <= field.usage_list@.len(),
        same_strings_at(a, b, slot_indices(field, field.usage_list@.len())),
    ensures
        array_outputs(field, a, upto) == array_outputs(field, b, upto),
    decreases upto,
{
    if upto > 0 {
        lemma_slots_need_listed_strings(field, a, b, (upto - 1) as nat);
        let i = upto - 1;
        if !hidden(field.usage_list@[i]) {
            match slot_string(field, i) {
                Some(index) => {
                    let listed = slot_indices(field, field.usage_list@.len());
                    lemma_slot_string_is_listed(field, field.usage_list@.len(), i);
                    let k = choose|k: int| 0 <= k < listed.len() && listed[k] == index;
                    assert(string_at(a, listed[k]) == string_at(b, listed[k]));
                },
                None => {},
            }
            assert(slot_output(field, a, i) == slot_output(field, b, i));
        }
    }
}

/// The first `upto` fields give the same controls with two tables of strings
/// that hold the same under the indices of those fields.
pub proof fn lemma_fields_need_listed_strings(
    fields: Seq<OutputField>,
    a: Map<u32, Seq<char>>,
    b: Map<u32, Seq<char>>,
    upto: nat,
)
    requires
        upto <= fields.len(),
        same_strings_at(a, b, fields_indices(fields, upto)),
    ensures
        fields_outputs(fields, a, upto) == fields_outputs(fields, b, upto),
    decreases upto,
{
    if upto > 0 {
        let field = fields[upto - 1];
        lemma_same_strings_split(
            a,
            b,
            fields_indices(fields, (upto - 1) as nat),
            field_indices(field),
        );
        lemma_fields_need_listed_strings(fields, a, b, (upto - 1) as nat);
        match field {
            OutputField::Variable(f) => {
                if !hidden(f.usage) && f.variable {
                    match f.string_index {
                        Some(index) => {
                            assert(field_indices(field)[0] == index);
                        },
                        None => {},
                    }
                }
            },
            OutputField::Array(f) => {
                lemma_slots_need_listed_strings(f, a, b, f.usage_list@.len());
            },
            OutputField::Padding(_) => {},
        }
    }
}

/// The strings that `string_indices` lists are all that building needs: two
/// tables of strings that hold the same under those indices give the same
/// reports.
pub proof fn lemma_listed_strings_suffice(
    layout: Seq<OutputReport>,
    a: Map<u32, Seq<char>>,
    b: Map<u32, Seq<char>>,
    upto: nat,
)
    requires
        upto <= layout.len(),
        same_strings_at(a, b, layout_indices(layout, upto)),
    ensures
        built_reports(layout, a, upto) == built_reports(layout, b, upto),
    decreases upto,
{
    if upto > 0 {
        let report = layout[upto - 1];
        lemma_same_strings_split(
            a,
            b,
            layout_indices(layout, (upto - 1) as nat),
            fields_indices(report.fields@, report.fields@.len()),
        );
        lemma_listed_strings_suffice(layout, a, b, (upto - 1) as nat);
        lemma_fields_need_listed_strings(report.fields@, a, b, report.fields@.len());
    }
}

/// A control that is shown has a name without the fallback: a usage that is
/// not hidden has a name in the usage tables, which is the name of the
/// control where the device has no string for it.
pub proof fn lemma_shown_usage_has_a_name(
    strings: Map<u32, Seq<char>>,
    index: Option<u32>,
    usage: Usage,
)
    requires
        !hidden(usage),
    ensures
        entry_name(usage_table_entry(usage.page, usage.id)).is_some(),
        device_text(strings, index).is_none() ==> Some(field_name(strings, index, usage))
            == entry_name(usage_table_entry(usage.page, usage.id)),
        device_text(strings, index).is_some() ==> Some(field_name(strings, index, usage))
            == device_text(strings, index),
{
}

/// Every report that is built is the one built from one of the declared
/// reports.
pub proof fn lemma_built_from_declared(
    layout: Seq<OutputReport>,
    strings: Map<u32, Seq<char>>,
    upto: nat,
    k: int,
)
    requires
        upto <= layout.len(),
        0 <= k < built_reports(layout, strings, upto).len(),
    ensures
        exists|j: int|
            0 <= j < upto && built_report(#[trigger] layout[j], strings) == Some(
                built_reports(layout, strings, upto)[k],
            ),
    decreases upto,
{
    if upto > 0 {
        let before = built_reports(layout, strings, (upto - 1) as nat);
        if k < before.len() {
            lemma_built_from_declared(layout, strings, (upto - 1) as nat, k);
            let j = choose|j: int|
                0 <= j < upto - 1 && built_report(#[trigger] layout[j], strings) == Some(before[k]);
            assert(built_report(layout[j], strings) == Some(
                built_reports(layout, strings, upto)[k],
            ));
        } else {
            assert(built_report(layout[upto - 1], strings) == Some(
                built_reports(layout, strings, upto)[k],
            ));
        }
    }
}

/// No overlap: where the fields of every declared report lie within the
/// report and share no bit, the controls of every built report lie within
/// the report and share no bit.
pub proof fn lemma_built_reports_apart(layout: Seq<OutputReport>, strings: Map<u32, Seq<char>>, k: int)
    requires
        forall|j: int| 0 <= j < layout.len() ==> (#[trigger] layout[j]).well_laid_out(),
        0 <= k < built_reports(layout, strings, layout.len()).len(),
    ensures
        built_reports(layout, strings, layout.len())[k].in_bounds(),
        built_reports(layout, strings, layout.len())[k].pairwise_disjoint(),
        built_reports(layout, strings, layout.len())[k].outputs.len() > 0,
{
    lemma_built_from_declared(layout, strings, layout.len(), k);
    let j = choose|j: int|
        0 <= j < layout.len() && built_report(#[trigger] layout[j], strings) == Some(
            built_reports(layout, strings, layout.len())[k],
        );
    lemma_controls_apart(layout[j], strings);
}

/// Whether `holds` is true of every control that a field shows.
pub open spec fn field_meets(
    field: OutputField,
    strings: Map<u32, Seq<char>>,
    holds: spec_fn(ControlModel) -> bool,
) -> bool {
    match field {
        OutputField::Variable(f) => match variable_output(f, strings) {
            Some(control) => holds(control),
            None => true,
        },
        OutputField::Array(f) => forall|i: int|
            0 <= i < f.usage_list@.len() && !hidden(#[trigger] f.usage_list@[i]) ==> holds(
                slot_output(f, strings, i),
            ),
        OutputField::Padding(_) => true,
    }
}

/// What holds of the control of every shown slot holds of every control of
/// an array field.
pub proof fn lemma_every_slot(
    field: ArrayField,
    strings: Map<u32, Seq<char>>,
    upto: nat,
    holds: spec_fn(ControlModel) -> bool,
)
    requires
        upto <= field.usage_list@.len(),
        forall|i: int|
            0 <= i < field.usage_list@.len() && !hidden(#[trigger] field.usage_list@[i]) ==> holds(
                slot_output(field, strings, i),
            ),
    ensures
        forall|k: int|
            0 <= k < array_outputs(field, strings, upto).len() ==> holds(
                #[trigger] array_outputs(field, strings, upto)[k],
            ),
    decreases upto,
{
    if upto > 0 {
        lemma_every_slot(field, strings, (upto - 1) as nat, holds);
        let before = array_outputs(field, strings, (upto - 1) as nat);
        let all = array_outputs(field, strings, upto);
        assert forall|k: int| 0 <= k < all.len() implies holds(#[trigger] all[k]) by {
            if k < before.len() {
                assert(all[k] == before[k]);
            } else {
                assert(!hidden(field.usage_list@[upto - 1]));
                assert(all[k] == slot_output(field, strings, upto - 1));
            }
        }
    }
}

/// What holds of the control of every shown field and slot holds of every
/// control of a report.
pub proof fn lemma_every_output(
    fields: Seq<OutputField>,
    strings: Map<u32, Seq<char>>,
    upto: nat,
    holds: spec_fn(ControlModel) -> bool,
)
    requires
        upto <= fields.len(),
        forall|j: int| 0 <= j < upto ==> field_meets(#[trigger] fields[j], strings, holds),
    ensures
        forall|k: int|
            0 <= k < fields_outputs(fields, strings, upto).len() ==> holds(
                #[trigger] fields_outputs(fields, strings, upto)[k],
            ),
    decreases upto,
{
    if upto > 0 {
        lemma_every_output(fields, strings, (upto - 1) as nat, holds);
        let field = fields[upto - 1];
        let before = fields_outputs(fields, strings, (upto - 1) as nat);
        let fresh = field_outputs(field, strings);
        let all = fields_outputs(fields, strings, upto);
        assert(field_meets(field, strings, holds));
        match field {
            OutputField::Array(f) => {
                lemma_every_slot(f, strings, f.usage_list@.len(), holds);
            },
            _ => {},
        }
        assert forall|k: int| 0 <= k < all.len() implies holds(#[trigger] all[k]) by {
            if k < before.len() {
                assert(all[k] == before[k]);
            } else {
                assert(all[k] == fresh[k - before.len()]);
            }
        }
    }
}

/// The bits of slot `i` of an array field: as many as the slots are wide,
/// and, where the field ends behind its start, within the field.
pub proof fn lemma_slot_bits(field: ArrayField, strings: Map<u32, Seq<char>>, i: int)
    requires
        0 <= i < field.usage_list@.len(),
    ensures
        slot_output(field, strings, i).end - slot_output(field, strings, i).start == slot_width(
            field,
        ),
        slot_output(field, strings, i).start == field.bits.start + i * slot_width(field),
        field.bits.start <= slot_output(field, strings, i).start,
        field.bits.start <= field.bits.end ==> slot_output(field, strings, i).end
            <= field.bits.end,
{
    let width = slot_width(field) as int;
    let count = field.usage_list@.len() as int;
    let span = span_of(field) as int;
    assert((i + 1) * width - i * width == width) by (nonlinear_arith);
    assert(0 <= i * width) by (nonlinear_arith)
        requires
            0 <= i,
            0 <= width,
    ;
    assert((i + 1) * width <= count * width) by (nonlinear_arith)
        requires
            i + 1 <= count,
            0 <= width,
    ;
    assert(count * width <= span) by (nonlinear_arith)
        requires
            count > 0,
            span >= 0,
            width == span / count,
    ;
}

/// Toggle precedence: a control of a built report that is one bit wide is a
/// toggle, whatever the logical bounds of its field.
pub proof fn lemma_one_bit_is_toggle(report: OutputReport, strings: Map<u32, Seq<char>>, k: int)
    requires
        0 <= k < report_outputs(report, strings).len(),
        report_outputs(report, strings)[k].end - report_outputs(report, strings)[k].start == 1,
    ensures
        report_outputs(report, strings)[k].kind is Toggle,
{
    let holds = |c: ControlModel| c.end - c.start == 1 ==> c.kind is Toggle;
    assert forall|j: int| 0 <= j < report.fields@.len() implies field_meets(
        #[trigger] report.fields@[j],
        strings,
        holds,
    ) by {
        match report.fields@[j] {
            OutputField::Array(f) => {
                assert forall|i: int|
                    0 <= i < f.usage_list@.len() && !hidden(
                        #[trigger] f.usage_list@[i],
                    ) implies holds(slot_output(f, strings, i)) by {
                    lemma_slot_bits(f, strings, i);
                }
            },
            _ => {},
        }
    }
    lemma_every_output(report.fields@, strings, report.fields@.len(), holds);
    assert(holds(report_outputs(report, strings)[k]));
}

/// Whether a control lies within the bits of a field.
pub open spec fn inside(control: ControlModel, bits: Range<u32>) -> bool {
    bits.start <= control.start <= control.end <= bits.end
}

/// Whether a control lies within one of the first `upto` fields.
pub open spec fn inside_a_field(control: ControlModel, fields: Seq<OutputField>, upto: nat) -> bool {
    exists|j: int| 0 <= j < upto && inside(control, (#[trigger] fields[j]).spec_bits())
}

/// Controls that lie within fields that share no bit share no bit.
pub proof fn lemma_apart_inside(
    a: ControlModel,
    b: ControlModel,
    around_a: Range<u32>,
    around_b: Range<u32>,
)
    requires
        inside(a, around_a),
        inside(b, around_b),
        ranges_apart(around_a, around_b),
    ensures
        a.disjoint_from(b),
        b.disjoint_from(a),
{
}

/// The controls of the first `upto` slots of an array field lie within the
/// field, in front of the next slot, and each in front of those that follow.
pub proof fn lemma_slots_in_order(field: ArrayField, strings: Map<u32, Seq<char>>, upto: nat)
    requires
        upto <= field.usage_list@.len(),
        field.bits.start <= field.bits.end,
    ensures
        forall|k: int|
            0 <= k < array_outputs(field, strings, upto).len() ==> {
                let control = #[trigger] array_outputs(field, strings, upto)[k];
                &&& inside(control, field.bits)
                &&& control.end <= field.bits.start + upto * slot_width(field)
            },
        forall|a: int, b: int|
            0 <= a < b < array_outputs(field, strings, upto).len() ==> (#[trigger] array_outputs(
                field,
                strings,
                upto,
            )[a]).end <= (#[trigger] array_outputs(field, strings, upto)[b]).start,
    decreases upto,
{
    if upto > 0 {
        lemma_slots_in_order(field, strings, (upto - 1) as nat);
        lemma_slot_bits(field, strings, upto - 1);
        let width = slot_width(field) as int;
        assert((upto - 1) * width <= upto * width) by (nonlinear_arith)
            requires
                0 <= width,
        ;
        assert((upto - 1 + 1) * width == upto * width);
    }
}

/// No overlap, within one report: where the fields of a declared report lie
/// within the report and share no bit, the controls built from them lie
/// within the report and share no bit.
pub proof fn lemma_controls_apart(report: OutputReport, strings: Map<u32, Seq<char>>)
    requires
        report.well_laid_out(),
    ensures
        (ReportModel {
            id: report.spec_id(),
            size_in_bits: report.size_in_bits as nat,
            outputs: report_outputs(report, strings),
        }).in_bounds(),
        (ReportModel {
            id: report.spec_id(),
            size_in_bits: report.size_in_bits as nat,
            outputs: report_outputs(report, strings),
        }).pairwise_disjoint(),
{
    lemma_fields_apart(report, strings, report.fields@.len());
    let outputs = report_outputs(report, strings);
    assert forall|i: int| 0 <= i < outputs.len() implies 0 <= (#[trigger] outputs[i]).start
        <= outputs[i].end <= report.size_in_bits by {
        assert(inside_a_field(outputs[i], report.fields@, report.fields@.len()));
    }
}

/// The controls of the first `upto` fields of a well laid out report each
/// lie within one of those fields, and no two of them share a bit.
pub proof fn lemma_fields_apart(report: OutputReport, strings: Map<u32, Seq<char>>, upto: nat)
    requires
        report.well_laid_out(),
        upto <= report.fields@.len(),
    ensures
        forall|k: int|
            0 <= k < fields_outputs(report.fields@, strings, upto).len() ==> inside_a_field(
                #[trigger] fields_outputs(report.fields@, strings, upto)[k],
                report.fields@,
                upto,
            ),
        forall|a: int, b: int|
            0 <= a < b < fields_outputs(report.fields@, strings, upto).len() ==> (
            #[trigger] fields_outputs(report.fields@, strings, upto)[a]).disjoint_from(
                #[trigger] fields_outputs(report.fields@, strings, upto)[b],
            ),
    decreases upto,
{
    if upto > 0 {
        let fields = report.fields@;
        let earlier = fields_outputs(fields, strings, (upto - 1) as nat);
        let field = fields[upto - 1];
        let fresh = field_outputs(field, strings);
        let all = fields_outputs(fields, strings, upto);
        lemma_fields_apart(report, strings, (upto - 1) as nat);
        assert(field.spec_bits().start <= field.spec_bits().end);
        match field {
            OutputField::Array(f) => {
                lemma_slots_in_order(f, strings, f.usage_list@.len());
            },
            _ => {},
        }
        assert forall|k: int| 0 <= k < fresh.len() implies inside(
            #[trigger] fresh[k],
            field.spec_bits(),
        ) by {}
        assert forall|k: int| 0 <= k < all.len() implies inside_a_field(
            #[trigger] all[k],
            fields,
            upto,
        ) by {
            if k < earlier.len() {
                assert(all[k] == earlier[k]);
                assert(inside_a_field(earlier[k], fields, (upto - 1) as nat));
                let j = choose|j: int|
                    0 <= j < upto - 1 && inside(earlier[k], (#[trigger] fields[j]).spec_bits());
                assert(inside(all[k], fields[j].spec_bits()));
            } else {
                assert(all[k] == fresh[k - earlier.len()]);
                assert(inside(all[k], fields[upto - 1].spec_bits()));
            }
        }
        assert forall|a: int, b: int| 0 <= a < b < all.len() implies (#[trigger] all[a]).disjoint_from(
            #[trigger] all[b],
        ) by {
            if b < earlier.len() {
                assert(all[a] == earlier[a] && all[b] == earlier[b]);
            } else if a < earlier.len() {
                assert(all[a] == earlier[a]);
                assert(all[b] == fresh[b - earlier.len()]);
                assert(inside_a_field(earlier[a], fields, (upto - 1) as nat));
                let j = choose|j: int|
                    0 <= j < upto - 1 && inside(earlier[a], (#[trigger] fields[j]).spec_bits());
                assert(ranges_apart(
                    fields[j].spec_bits(),
                    fields[upto - 1].spec_bits(),
                ));
                lemma_apart_inside(
                    all[a],
                    all[b],
                    fields[j].spec_bits(),
                    fields[upto - 1].spec_bits(),
                );
            } else {
                assert(all[a] == fresh[a - earlier.len()]);
                assert(all[b] == fresh[b - earlier.len()]);
                assert(fresh[a - earlier.len()].end <= fresh[b - earlier.len()].start);
            }
        }
    }
}

/// Vendor filtering is conservative: a usage that the usage tables do not
/// know is hidden. A variable field with such a usage gives no control, and
/// a slot with such a usage adds none to those of the slots before it.
pub proof fn lemma_unknown_usage_gives_no_control(usage: Usage, strings: Map<u32, Seq<char>>)
    requires
        usage_table_entry(usage.page, usage.id).is_none(),
    ensures
        hidden(usage),
        forall|field: VariableField|
            field.usage == usage ==> (#[trigger] variable_output(field, strings)).is_none(),
        forall|field: ArrayField, i: int|
            0 <= i < field.usage_list@.len() && field.usage_list@[i] == usage ==> #[trigger] array_outputs(
                field,
                strings,
                (i + 1) as nat,
            ) == array_outputs(field, strings, i as nat),
{
}

/// Whether a field shows no control because it is padding or because every
/// usage in it is hidden.
pub open spec fn shows_nothing(field: OutputField) -> bool {
    match field {
        OutputField::Variable(f) => hidden(f.usage),
        OutputField::Array(f) => forall|i: int|
            0 <= i < f.usage_list@.len() ==> hidden(#[trigger] f.usage_list@[i]),
        OutputField::Padding(_) => true,
    }
}

/// An array field whose usages are all hidden has no control.
pub proof fn lemma_hidden_slots(field: ArrayField, strings: Map<u32, Seq<char>>, upto: nat)
    requires
        upto <= field.usage_list@.len(),
        forall|i: int| 0 <= i < field.usage_list@.len() ==> hidden(#[trigger] field.usage_list@[i]),
    ensures
        array_outputs(field, strings, upto).len() == 0,
    decreases upto,
{
    if upto > 0 {
        lemma_hidden_slots(field, strings, (upto - 1) as nat);
        assert(hidden(field.usage_list@[upto - 1]));
    }
}

/// Fields that show nothing give a report without controls.
pub proof fn lemma_hidden_fields(fields: Seq<OutputField>, strings: Map<u32, Seq<char>>, upto: nat)
    requires
        upto <= fields.len(),
        forall|j: int| 0 <= j < fields.len() ==> shows_nothing(#[trigger] fields[j]),
    ensures
        fields_outputs(fields, strings, upto).len() == 0,
    decreases upto,
{
    if upto > 0 {
        lemma_hidden_fields(fields, strings, (upto - 1) as nat);
        assert(shows_nothing(fields[upto - 1]));
        match fields[upto - 1] {
            OutputField::Array(f) => {
                lemma_hidden_slots(f, strings, f.usage_list@.len());
            },
            _ => {},
        }
    }
}

/// What is built from the first `upto` reports depends on those alone.
pub proof fn lemma_built_from_prefix(
    a: Seq<OutputReport>,
    b: Seq<OutputReport>,
    strings: Map<u32, Seq<char>>,
    upto: nat,
)
    requires
        upto <= a.len(),
        upto <= b.len(),
        forall|j: int| 0 <= j < upto ==> a[j] == b[j],
    ensures
        built_reports(a, strings, upto) == built_reports(b, strings, upto),
    decreases upto,
{
    if upto > 0 {
        lemma_built_from_prefix(a, b, strings, (upto - 1) as nat);
    }
}

/// Empty reports are dropped: a declared report whose every field is padding
/// or shows only hidden usages leaves no trace. What is built from the list
/// is what is built from the list without that report.
pub proof fn lemma_empty_report_is_dropped(
    layout: Seq<OutputReport>,
    strings: Map<u32, Seq<char>>,
    at: int,
)
    requires
        0 <= at < layout.len(),
        forall|j: int|
            0 <= j < layout[at].fields@.len() ==> shows_nothing(#[trigger] layout[at].fields@[j]),
    ensures
        built_report(layout[at], strings).is_none(),
        built_reports(layout, strings, layout.len()) == built_reports(
            layout.remove(at),
            strings,
            (layout.len() - 1) as nat,
        ),
{
    lemma_hidden_fields(layout[at].fields@, strings, layout[at].fields@.len());
    lemma_dropped_upto(layout, strings, at, layout.len());
}

/// The step of `lemma_empty_report_is_dropped`, for the reports up to `upto`.
pub proof fn lemma_dropped_upto(
    layout: Seq<OutputReport>,
    strings: Map<u32, Seq<char>>,
    at: int,
    upto: nat,
)
    requires
        0 <= at < upto <= layout.len(),
        built_report(layout[at], strings).is_none(),
    ensures
        built_reports(layout, strings, upto) == built_reports(
            layout.remove(at),
            strings,
            (upto - 1) as nat,
        ),
    decreases upto,
{
    let rest = layout.remove(at);
    if upto == at + 1 {
        lemma_built_from_prefix(layout, rest, strings, at as nat);
    } else {
        lemma_dropped_upto(layout, strings, at, (upto - 1) as nat);
        assert(rest[upto - 2] == layout[upto - 1]);
    }
}

} // verus!
