//! From the bytes of a report descriptor to the output reports that it
//! declares.
//!
//! The descriptor is read by the `hidparser` crate. Before it is handed over,
//! it is walked item by item here, to keep away from the parser a descriptor
//! with a report that would outgrow the parser's counter of bits.

use crate::error::HidLightError;
use crate::layout::{
    ranges_apart, ArrayField, FieldModel, OutputField, OutputReport, PaddingField, StringRange,
    VariableField,
};
use crate::report::text_of;
use crate::usage::Usage;
use hidparser::report_descriptor_parser::ReportDescriptorError;
use std::ops::Range;
use vstd::prelude::*;

verus! {

/// The most bits that one report may hold: what the parser's counter of 32
/// bits holds.
pub const MAX_REPORT_BITS: u64 = 0xFFFF_FFFF;

/// The number of data bytes that follow an item's first byte.
pub open spec fn item_size(header: u8) -> nat {
    if header % 4 == 3 {
        4
    } else {
        (header % 4) as nat
    }
}

/// The type of an item: 0 main, 1 global, 2 local, 3 reserved.
pub open spec fn item_type(header: u8) -> nat {
    ((header / 4) % 4) as nat
}

/// The tag of an item.
pub open spec fn item_tag(header: u8) -> nat {
    (header / 16) as nat
}

/// The number that `count` bytes from `at` on hold, lowest byte first.
pub open spec fn item_value(bytes: Seq<u8>, at: int, count: nat) -> nat
    decreases count,
{
    if count == 0 || at < 0 || at >= bytes.len() {
        0
    } else {
        bytes[at] as nat + 256 * item_value(bytes, at + 1, (count - 1) as nat)
    }
}

/// The number that `count` bytes hold when their highest bit is a sign.
pub open spec fn signed_value(value: nat, count: nat) -> int {
    if count == 1 && value >= 0x80 {
        value - 0x100
    } else if count == 2 && value >= 0x8000 {
        value - 0x1_0000
    } else if count == 4 && value >= 0x8000_0000 {
        value - 0x1_0000_0000
    } else {
        value as int
    }
}

/// Whether an item declares fields of a report: input, output or feature.
pub open spec fn declares_fields(header: u8) -> bool {
    item_type(header) == 0 && (item_tag(header) == 8 || item_tag(header) == 9 || item_tag(header)
        == 11)
}

/// What is in force at an item of a descriptor: the global items declared
/// last, and what the local items since the last main item amount to.
#[derive(Clone, Copy)]
pub struct Tally {
    pub report_id: Option<u32>,
    pub count: Option<u32>,
    pub size: Option<u32>,
    pub logical_minimum: Option<i32>,
    pub logical_maximum: Option<i32>,
    /// Whether a usage or a run of usages has been declared.
    pub has_run: bool,
    /// Whether one of the runs declared holds a usage.
    pub usable: bool,
    /// A usage minimum that waits for its maximum.
    pub pending_minimum: Option<u32>,
    /// A usage maximum that waits for its minimum.
    pub pending_maximum: Option<u32>,
}

/// How far a report has grown.
pub struct Progress {
    /// The bits of its fields so far.
    pub position: nat,
    /// Whether an item of the report lacked what a field needs: the parser
    /// leaves out that item and all that follow it in the report.
    pub broken: bool,
}

/// The tally before the first item.
pub open spec fn empty_tally() -> Tally {
    Tally {
        report_id: None,
        count: None,
        size: None,
        logical_minimum: None,
        logical_maximum: None,
        has_run: false,
        usable: false,
        pending_minimum: None,
        pending_maximum: None,
    }
}

/// A tally with the local items forgotten, as behind every main item.
pub open spec fn without_locals(tally: Tally) -> Tally {
    Tally {
        has_run: false,
        usable: false,
        pending_minimum: None,
        pending_maximum: None,
        ..tally
    }
}

/// A tally with one more run of usages, from `first` to `last`.
pub open spec fn with_run(tally: Tally, first: u32, last: u32) -> Tally {
    Tally { has_run: true, usable: tally.usable || first <= last, ..tally }
}

/// The tally behind a global or a local item with the given tag and value.
pub open spec fn noted(tally: Tally, kind: nat, tag: nat, value: nat, size: nat) -> Tally {
    if kind == 1 && tag == 1 {
        Tally { logical_minimum: Some(signed_value(value, size) as i32), ..tally }
    } else if kind == 1 && tag == 2 {
        Tally { logical_maximum: Some(signed_value(value, size) as i32), ..tally }
    } else if kind == 1 && tag == 7 {
        Tally { size: Some(value as u32), ..tally }
    } else if kind == 1 && tag == 8 {
        Tally { report_id: Some(value as u32), ..tally }
    } else if kind == 1 && tag == 9 {
        Tally { count: Some(value as u32), ..tally }
    } else if kind == 2 && tag == 0 {
        with_run(tally, value as u32, value as u32)
    } else if kind == 2 && tag == 1 {
        match tally.pending_maximum {
            Some(last) => Tally { pending_maximum: None, ..with_run(tally, value as u32, last) },
            None => Tally { pending_minimum: Some(value as u32), ..tally },
        }
    } else if kind == 2 && tag == 2 {
        match tally.pending_minimum {
            Some(first) => Tally { pending_minimum: None, ..with_run(tally, first, value as u32) },
            None => Tally { pending_maximum: Some(value as u32), ..tally },
        }
    } else {
        tally
    }
}

/// Whether the logical bounds allow no value: read as signed numbers where
/// the lower one is negative, else as unsigned ones.
pub open spec fn bounds_are_empty(lo: i32, hi: i32) -> bool {
    if lo < 0 {
        lo >= hi
    } else if hi < 0 {
        false
    } else {
        lo >= hi
    }
}

/// Whether an item lacks what the parser needs to make fields of it.
pub open spec fn lacks_something(tally: Tally, variable: bool) -> bool {
    ||| tally.count.is_none()
    ||| tally.size.is_none()
    ||| tally.has_run && {
        ||| tally.logical_minimum.is_none()
        ||| tally.logical_maximum.is_none()
        ||| bounds_are_empty(tally.logical_minimum.unwrap(), tally.logical_maximum.unwrap())
        ||| variable && !tally.usable
    }
}

/// How far a report has grown behind an item that declares fields, or
/// nothing where it would outgrow the parser's counter. A report that is
/// broken grows no more; an item that lacks something breaks it; any other
/// item adds count times size bits.
pub open spec fn grown(tally: Tally, variable: bool, progress: Progress) -> Option<Progress> {
    if progress.broken {
        Some(progress)
    } else if lacks_something(tally, variable) {
        Some(Progress { broken: true, ..progress })
    } else {
        let position = (progress.position + tally.count.unwrap() * tally.size.unwrap()) as nat;
        if position > MAX_REPORT_BITS {
            None
        } else {
            Some(Progress { position, broken: false })
        }
    }
}

/// The key of a report: its kind, which is the tag of the items that
/// declare its fields, and its number.
pub open spec fn report_key(tag: nat, id: Option<u32>) -> u64 {
    (tag * 0x2_0000_0000 + match id {
        Some(number) => 0x1_0000_0000 + number,
        None => 0,
    }) as u64
}

/// How far the report under a key has grown.
pub open spec fn progress_of(reports: Map<u64, Progress>, key: u64) -> Progress {
    if reports.dom().contains(key) {
        reports[key]
    } else {
        Progress { position: 0, broken: false }
    }
}

/// Whether the items from `pos` on let no report outgrow the parser's
/// counter, given what is in force at `pos` and how far each report has
/// grown.
///
/// The walk follows the parser: the count, the size, the logical bounds and
/// the report's number in force are the last ones declared, a push and a pop
/// change none of them, and the local items are forgotten behind every main
/// item. It ends at the end of the descriptor, at an item cut short by it,
/// and at a reserved item.
pub open spec fn walk_within_limits(
    bytes: Seq<u8>,
    pos: nat,
    tally: Tally,
    reports: Map<u64, Progress>,
) -> bool
    decreases bytes.len() - pos,
{
    if pos >= bytes.len() {
        true
    } else {
        let header = bytes[pos as int];
        let size = item_size(header);
        let next = pos + 1 + size;
        let value = item_value(bytes, pos as int + 1, size);
        if item_type(header) == 3 || next > bytes.len() {
            true
        } else if declares_fields(header) {
            let key = report_key(item_tag(header), tally.report_id);
            match grown(tally, (value / 2) % 2 == 1, progress_of(reports, key)) {
                Some(progress) => walk_within_limits(
                    bytes,
                    next,
                    without_locals(tally),
                    reports.insert(key, progress),
                ),
                None => false,
            }
        } else if item_type(header) == 0 {
            walk_within_limits(bytes, next, without_locals(tally), reports)
        } else {
            walk_within_limits(
                bytes,
                next,
                noted(tally, item_type(header), item_tag(header), value, size),
                reports,
            )
        }
    }
}

/// Whether a descriptor lets no report outgrow the parser's counter of 32
/// bits.
pub open spec fn within_limits(bytes: Seq<u8>) -> bool {
    walk_within_limits(bytes, 0, empty_tally(), Map::empty())
}

/// Whether the fields of a parsed report lie one behind the other from bit 0
/// to the size of the report: the first starts at bit 0, each other one
/// where the one before it ends, and the last ends at the size.
pub open spec fn in_a_row(report: (Option<u32>, usize, Seq<hidparser::ReportField>)) -> bool {
    let fields = report.2;
    &&& forall|k: int|
        0 <= k < fields.len() ==> declared_field(#[trigger] fields[k]).0.bits().start
            <= declared_field(fields[k]).0.bits().end
    &&& fields.len() > 0 ==> declared_field(fields[0]).0.bits().start == 0
    &&& forall|k: int, m: int|
        0 <= k && m == k + 1 && m < fields.len() ==> declared_field(
            #[trigger] fields[m],
        ).0.bits().start == declared_field(#[trigger] fields[k]).0.bits().end
    &&& report.1 == if fields.len() == 0 {
        0
    } else {
        declared_field(fields[fields.len() - 1]).0.bits().end
    }
}

/// Whether `hidparser` reads the descriptor without an error.
pub uninterp spec fn descriptor_parses(bytes: Seq<u8>) -> bool;

/// The output reports that `hidparser` finds in a descriptor, each as its
/// number, its size in bits and its fields.
pub uninterp spec fn parsed_reports(bytes: Seq<u8>) -> Seq<
    (Option<u32>, usize, Seq<hidparser::ReportField>),
>;

/// The output reports that a parsed descriptor holds, each as its number,
/// its size in bits and its fields.
pub uninterp spec fn held_reports(descriptor: hidparser::ReportDescriptor) -> Seq<
    (Option<u32>, usize, Seq<hidparser::ReportField>),
>;

/// What a field holds that `hidparser` has parsed: the field, with the
/// string index of a variable field left empty, and beside it how that
/// string index prints, where the variable field has one.
pub uninterp spec fn declared_field(field: hidparser::ReportField) -> (
    FieldModel,
    Option<Seq<char>>,
);

/// What `hidparser` makes of a descriptor. Nothing is known of it here but
/// what the functions below hand out.
#[verifier::external_type_specification]
#[verifier::external_body]
pub struct ExReportDescriptor(hidparser::ReportDescriptor);

/// One field of a report as `hidparser` holds it.
#[verifier::external_type_specification]
#[verifier::external_body]
pub struct ExDeclaredField(hidparser::ReportField);

/// Why `hidparser` could not read a descriptor.
#[verifier::external_type_specification]
#[verifier::external_body]
pub struct ExReportDescriptorError(ReportDescriptorError);

/// Reads a descriptor with `hidparser::parse_report_descriptor`.
///
/// Not proved: that the parser returns for every descriptor within the
/// limits; it adds up the bits of each report in 32 bits, and `requires`
/// leaves out the descriptors on which that sum overflows. Nor that it
/// succeeds where `descriptor_parses` says, and finds the output reports
/// that `parsed_reports` stands for: both are given a name, since the parser
/// reads nothing but the bytes. Nor that the fields of each report lie one
/// behind the other: the parser gives each field the bits from where the
/// one before it ended, the first from bit 0, and the report the size at
/// which the last one ended.
#[verifier::external_body]
fn parse_descriptor(bytes: &[u8]) -> (r: Result<hidparser::ReportDescriptor, ReportDescriptorError>)
    requires
        within_limits(bytes@),
    ensures
        r.is_ok() == descriptor_parses(bytes@),
        r matches Ok(descriptor) ==> held_reports(descriptor) == parsed_reports(bytes@),
        r matches Ok(descriptor) ==> forall|i: int|
            0 <= i < held_reports(descriptor).len() ==> in_a_row(
                #[trigger] held_reports(descriptor)[i],
            ),
{
    hidparser::parse_report_descriptor(bytes)
}

/// The output reports of a parsed descriptor, each as its number, its size
/// in bits and its fields: the fields `report_id`, `size_in_bits` and `fields`
/// of each report in `output_reports`.
///
/// Not proved: that these are the reports that `held_reports` stands for.
#[verifier::external_body]
fn declared_outputs(descriptor: &hidparser::ReportDescriptor) -> (r: Vec<
    (Option<u32>, usize, &Vec<hidparser::ReportField>),
>)
    ensures
        r@.len() == held_reports(*descriptor).len(),
        forall|i: int|
            0 <= i < r@.len() ==> {
                &&& (#[trigger] r@[i]).0 == held_reports(*descriptor)[i].0
                &&& r@[i].1 == held_reports(*descriptor)[i].1
                &&& r@[i].2@ == held_reports(*descriptor)[i].2
            },
{
    descriptor.output_reports.iter().map(
        |report| (report.report_id.map(u32::from), report.size_in_bits, &report.fields),
    ).collect()
}

/// The parts of a parsed field that is a variable field, and how its string
/// index prints: the parser gives no other way to the number in it. The
/// string index of the field returned is left empty. Nothing is returned for
/// a field of another kind.
///
/// Not proved: that these parts are what `declared_field` stands for. They
/// are read from the fields `bits`, `usage`, `logical_minimum`,
/// `logical_maximum`, `attributes.variable` and `string_index` of the
/// `VariableField`, and depend on nothing else.
#[verifier::external_body]
fn variable_parts(field: &hidparser::ReportField) -> (r: Option<(VariableField, Option<String>)>)
    ensures
        match r {
            Some(parts) => declared_field(*field) == (
                FieldModel::Variable(parts.0),
                text_of(parts.1),
            ),
            None => !(declared_field(*field).0 is Variable),
        },
{
    match field {
        hidparser::ReportField::Variable(v) => {
            let printed = v.string_index.map(|index| format!("{:?}", index));
            let parts = VariableField {
                bits: v.bits.clone(),
                usage: Usage { page: v.usage.page(), id: v.usage.id() },
                logical_minimum: v.logical_minimum.into(),
                logical_maximum: v.logical_maximum.into(),
                string_index: None,
                variable: v.attributes.variable,
            };
            Some((parts, printed))
        },
        _ => None,
    }
}

/// The parts of a parsed field that is an array field: its bits and logical
/// bounds, the first usage of each run in `usage_list`, the first designator
/// of each run in `designator_list`, and the runs in `string_list`. Nothing
/// is returned for a field of another kind.
///
/// Not proved: that these parts are what `declared_field` stands for. They
/// are read from the fields of the `ArrayField` and depend on nothing else.
#[verifier::external_body]
fn array_parts(field: &hidparser::ReportField) -> (r: Option<ArrayField>)
    ensures
        match r {
            Some(parts) => declared_field(*field).0 == FieldModel::Array(parts@),
            None => !(declared_field(*field).0 is Array),
        },
{
    match field {
        hidparser::ReportField::Array(a) => Some(ArrayField {
            bits: a.bits.clone(),
            usage_list: a.usage_list.iter().map(|r| Usage::from_value(r.start())).collect(),
            designator_list: a.designator_list.iter().map(|r| r.start()).collect(),
            string_list: a.string_list.iter().map(|r| StringRange::from_run(r.range())).collect(),
            logical_minimum: a.logical_minimum.into(),
            logical_maximum: a.logical_maximum.into(),
        }),
        _ => None,
    }
}

/// The bits of a parsed field of any kind: the field `bits` of the
/// `VariableField`, `ArrayField` or `PaddingField` in it.
///
/// Not proved: that these are the bits of what `declared_field` stands for.
#[verifier::external_body]
fn declared_bits(field: &hidparser::ReportField) -> (r: Range<u32>)
    ensures
        r == declared_field(*field).0.bits(),
{
    match field {
        hidparser::ReportField::Variable(v) => v.bits.clone(),
        hidparser::ReportField::Array(a) => a.bits.clone(),
        hidparser::ReportField::Padding(p) => p.bits.clone(),
    }
}

/// The digit that a character stands for.
pub open spec fn digit_of(c: char) -> Option<nat> {
    if c == '0' {
        Some(0)
    } else if c == '1' {
        Some(1)
    } else if c == '2' {
        Some(2)
    } else if c == '3' {
        Some(3)
    } else if c == '4' {
        Some(4)
    } else if c == '5' {
        Some(5)
    } else if c == '6' {
        Some(6)
    } else if c == '7' {
        Some(7)
    } else if c == '8' {
        Some(8)
    } else if c == '9' {
        Some(9)
    } else {
        None
    }
}

/// The number that the digits among the first `upto` characters of a text
/// spell, read in their order; what is no digit is passed over.
pub open spec fn digits_value(text: Seq<char>, upto: nat) -> nat
    decreases upto,
{
    if upto == 0 || upto > text.len() {
        0
    } else {
        let before = digits_value(text, (upto - 1) as nat);
        match digit_of(text[upto - 1]) {
            Some(d) => before * 10 + d,
            None => before,
        }
    }
}

/// Whether there is a digit among the first `upto` characters of a text.
pub open spec fn has_digit(text: Seq<char>, upto: nat) -> bool
    decreases upto,
{
    if upto == 0 || upto > text.len() {
        false
    } else {
        digit_of(text[upto - 1]).is_some() || has_digit(text, (upto - 1) as nat)
    }
}

/// The index that a text names: the number that its digits spell, if it has
/// a digit and the number fits 32 bits.
pub open spec fn index_in(text: Seq<char>) -> Option<u32> {
    if has_digit(text, text.len()) && digits_value(text, text.len()) <= u32::MAX {
        Some(digits_value(text, text.len()) as u32)
    } else {
        None
    }
}

/// The digit that a character stands for.
pub fn digit(c: char) -> (r: Option<u64>)
    ensures
        match r {
            Some(d) => digit_of(c) == Some(d as nat),
            None => digit_of(c).is_none(),
        },
{
    if c == '0' {
        Some(0)
    } else if c == '1' {
        Some(1)
    } else if c == '2' {
        Some(2)
    } else if c == '3' {
        Some(3)
    } else if c == '4' {
        Some(4)
    } else if c == '5' {
        Some(5)
    } else if c == '6' {
        Some(6)
    } else if c == '7' {
        Some(7)
    } else if c == '8' {
        Some(8)
    } else if c == '9' {
        Some(9)
    } else {
        None
    }
}

/// Reads the index out of the text that names it: the digits of the text, as
/// one decimal number.
pub fn index_from_text(text: &str) -> (r: Option<u32>)
    ensures
        r == index_in(text@),
{
    let len = text.unicode_len();
    let mut value: u64 = 0;
    let mut seen = false;
    let mut i: usize = 0;
    while i < len
        invariant
            i <= len == text@.len(),
            seen == has_digit(text@, i as nat),
            value <= u32::MAX + 1,
            value <= u32::MAX ==> value == digits_value(text@, i as nat),
            value > u32::MAX ==> digits_value(text@, i as nat) > u32::MAX,
        decreases len - i,
    {
        match digit(text.get_char(i)) {
            Some(d) => {
                seen = true;
                if value <= 0xFFFF_FFFF {
                    value = value * 10 + d;
                    if value > 0xFFFF_FFFF {
                        value = 0x1_0000_0000;
                    }
                }
            },
            None => {},
        }
        i += 1;
    }
    if seen && value <= 0xFFFF_FFFF {
        Some(value as u32)
    } else {
        None
    }
}

/// A variable field with the string index that a text names, or with none
/// where there is no text.
pub open spec fn with_index(field: VariableField, printed: Option<Seq<char>>) -> VariableField {
    VariableField {
        string_index: match printed {
            Some(text) => index_in(text),
            None => None,
        },
        ..field
    }
}

/// The field that a parsed field becomes: the field as it was parsed, a
/// variable field with the string index that its print names.
pub open spec fn converted(declared: (FieldModel, Option<Seq<char>>)) -> FieldModel {
    match declared.0 {
        FieldModel::Variable(field) => FieldModel::Variable(with_index(field, declared.1)),
        FieldModel::Array(field) => FieldModel::Array(field),
        FieldModel::Padding(field) => FieldModel::Padding(field),
    }
}

/// Gives a variable field the string index that `printed` names: the number
/// that the digits of the text spell, and none where there is no text.
pub fn with_string_index(field: VariableField, printed: Option<String>) -> (r: VariableField)
    ensures
        r == with_index(field, text_of(printed)),
{
    let string_index = match printed {
        Some(text) => index_from_text(text.as_str()),
        None => None,
    };
    VariableField {
        bits: field.bits,
        usage: field.usage,
        logical_minimum: field.logical_minimum,
        logical_maximum: field.logical_maximum,
        string_index,
        variable: field.variable,
    }
}

/// The field of the library for a parsed field: a variable field with its
/// string index read from its print, an array field or padding as the parser
/// holds it.
fn convert_field(field: &hidparser::ReportField) -> (r: OutputField)
    ensures
        r@ == converted(declared_field(*field)),
{
    match variable_parts(field) {
        Some((parts, printed)) => OutputField::Variable(with_string_index(parts, printed)),
        None => match array_parts(field) {
            Some(parts) => OutputField::Array(parts),
            None => OutputField::Padding(PaddingField { bits: declared_bits(field) }),
        },
    }
}

/// The fields of the library for the fields of a parsed report: one for
/// each, in their order.
fn convert_fields(declared: &Vec<hidparser::ReportField>) -> (r: Vec<OutputField>)
    ensures
        r@.len() == declared@.len(),
        forall|i: int|
            0 <= i < declared@.len() ==> (#[trigger] r@[i])@ == converted(
                declared_field(declared@[i]),
            ),
{
    let mut fields: Vec<OutputField> = Vec::new();
    let mut i: usize = 0;
    while i < declared.len()
        invariant
            i <= declared@.len(),
            fields@.len() == i,
            forall|k: int|
                0 <= k < i ==> (#[trigger] fields@[k])@ == converted(declared_field(declared@[k])),
        decreases declared@.len() - i,
    {
        fields.push(convert_field(&declared[i]));
        i += 1;
    }
    fields
}

/// The number that the `count` bytes from `at` on hold, lowest byte first.
fn read_value(bytes: &[u8], at: usize, count: usize) -> (r: u64)
    requires
        count <= 4,
        at + count <= bytes@.len(),
    ensures
        r == item_value(bytes@, at as int, count as nat),
        count == 0 ==> r == 0,
        count == 1 ==> r <= 0xFF,
        count == 2 ==> r <= 0xFFFF,
        r <= 0xFFFF_FFFF,
{
    let len = bytes.len();
    let mut value: u64 = 0;
    let mut k: usize = count;
    while k > 0
        invariant
            k <= count <= 4,
            at + count <= len == bytes@.len(),
            value == item_value(bytes@, at + k, (count - k) as nat),
            count - k == 0 ==> value == 0,
            count - k == 1 ==> value <= 0xFF,
            count - k == 2 ==> value <= 0xFFFF,
            count - k == 3 ==> value <= 0xFF_FFFF,
            count - k == 4 ==> value <= 0xFFFF_FFFF,
        decreases k,
    {
        k -= 1;
        value = bytes[at + k] as u64 + 256 * value;
    }
    value
}

/// The number that `size` bytes hold when their highest bit is a sign.
fn read_signed(value: u64, size: usize) -> (r: i32)
    requires
        size == 0 || size == 1 || size == 2 || size == 4,
        size == 0 ==> value == 0,
        size == 1 ==> value <= 0xFF,
        size == 2 ==> value <= 0xFFFF,
        value <= 0xFFFF_FFFF,
    ensures
        r == signed_value(value as nat, size as nat),
{
    if size == 1 && value >= 0x80 {
        (value as i64 - 0x100) as i32
    } else if size == 2 && value >= 0x8000 {
        (value as i64 - 0x1_0000) as i32
    } else if size == 4 && value >= 0x8000_0000 {
        (value as i64 - 0x1_0000_0000) as i32
    } else {
        value as i32
    }
}

/// The tally behind a global or a local item.
fn note(tally: Tally, kind: u8, tag: u8, value: u64, size: usize) -> (r: Tally)
    requires
        size == 0 || size == 1 || size == 2 || size == 4,
        size == 0 ==> value == 0,
        size == 1 ==> value <= 0xFF,
        size == 2 ==> value <= 0xFFFF,
        value <= 0xFFFF_FFFF,
    ensures
        r == noted(tally, kind as nat, tag as nat, value as nat, size as nat),
{
    let number: u32 = value as u32;
    if kind == 1 && tag == 1 {
        Tally { logical_minimum: Some(read_signed(value, size)), ..tally }
    } else if kind == 1 && tag == 2 {
        Tally { logical_maximum: Some(read_signed(value, size)), ..tally }
    } else if kind == 1 && tag == 7 {
        Tally { size: Some(number), ..tally }
    } else if kind == 1 && tag == 8 {
        Tally { report_id: Some(number), ..tally }
    } else if kind == 1 && tag == 9 {
        Tally { count: Some(number), ..tally }
    } else if kind == 2 && tag == 0 {
        Tally { has_run: true, usable: true, ..tally }
    } else if kind == 2 && tag == 1 {
        match tally.pending_maximum {
            Some(last) => Tally {
                has_run: true,
                usable: tally.usable || number <= last,
                pending_maximum: None,
                ..tally
            },
            None => Tally { pending_minimum: Some(number), ..tally },
        }
    } else if kind == 2 && tag == 2 {
        match tally.pending_minimum {
            Some(first) => Tally {
                has_run: true,
                usable: tally.usable || first <= number,
                pending_minimum: None,
                ..tally
            },
            None => Tally { pending_maximum: Some(number), ..tally },
        }
    } else {
        tally
    }
}

/// Whether an item lacks what the parser needs to make fields of it.
fn lacks(tally: &Tally, variable: bool) -> (r: bool)
    ensures
        r == lacks_something(*tally, variable),
{
    if tally.count.is_none() || tally.size.is_none() {
        return true;
    }
    if !tally.has_run {
        return false;
    }
    match (tally.logical_minimum, tally.logical_maximum) {
        (Some(lo), Some(hi)) => {
            let empty = if lo < 0 {
                lo >= hi
            } else if hi < 0 {
                false
            } else {
                lo >= hi
            };
            empty || (variable && !tally.usable)
        },
        _ => true,
    }
}

/// How far a report has grown behind an item that declares fields, or
/// nothing where it would outgrow the parser's counter.
fn grow(tally: &Tally, variable: bool, position: u32, broken: bool) -> (r: Option<(u32, bool)>)
    ensures
        match r {
            Some(now) => grown(*tally, variable, Progress { position: position as nat, broken })
                == Some(Progress { position: now.0 as nat, broken: now.1 }),
            None => grown(*tally, variable, Progress { position: position as nat, broken })
                .is_none(),
        },
{
    if broken {
        return Some((position, true));
    }
    if lacks(tally, variable) {
        return Some((position, true));
    }
    let count: u64 = tally.count.unwrap() as u64;
    let size: u64 = tally.size.unwrap() as u64;
    assert(count * size <= 0xFFFF_FFFF * 0xFFFF_FFFF) by (nonlinear_arith)
        requires
            0 <= count <= 0xFFFF_FFFF,
            0 <= size <= 0xFFFF_FFFF,
    ;
    let product = count * size;
    if product > MAX_REPORT_BITS || position as u64 + product > MAX_REPORT_BITS {
        None
    } else {
        Some(((position as u64 + product) as u32, false))
    }
}

/// One report of the walk: its key and how far it has grown.
pub struct ReportEntry {
    pub key: u64,
    pub position: u32,
    pub broken: bool,
}

/// Whether a list of entries holds what a map of reports holds: each report
/// once, under its key.
pub open spec fn records(entries: Seq<ReportEntry>, reports: Map<u64, Progress>) -> bool {
    &&& forall|i: int, j: int|
        0 <= i < j < entries.len() ==> (#[trigger] entries[i]).key != (#[trigger] entries[j]).key
    &&& forall|i: int|
        0 <= i < entries.len() ==> reports.dom().contains((#[trigger] entries[i]).key)
            && reports[entries[i].key] == (Progress {
            position: entries[i].position as nat,
            broken: entries[i].broken,
        })
    &&& forall|key: u64| #[trigger]
        reports.dom().contains(key) ==> exists|i: int|
            0 <= i < entries.len() && (#[trigger] entries[i]).key == key
}

/// The place of the report with a key among the entries, if it is there.
fn find_report(entries: &Vec<ReportEntry>, key: u64) -> (r: Option<usize>)
    ensures
        match r {
            Some(i) => i < entries@.len() && entries@[i as int].key == key,
            None => forall|i: int| 0 <= i < entries@.len() ==> (#[trigger] entries@[i]).key != key,
        },
{
    let mut i: usize = 0;
    while i < entries.len()
        invariant
            i <= entries@.len(),
            forall|k: int| 0 <= k < i ==> (#[trigger] entries@[k]).key != key,
        decreases entries@.len() - i,
    {
        if entries[i].key == key {
            return Some(i);
        }
        i += 1;
    }
    None
}

/// Whether a descriptor lets no report outgrow the parser's counter of 32
/// bits.
pub fn is_within_limits(bytes: &[u8]) -> (r: bool)
    ensures
        r == within_limits(bytes@),
{
    let len = bytes.len();
    let mut pos: usize = 0;
    let mut tally = Tally {
        report_id: None,
        count: None,
        size: None,
        logical_minimum: None,
        logical_maximum: None,
        has_run: false,
        usable: false,
        pending_minimum: None,
        pending_maximum: None,
    };
    let mut entries: Vec<ReportEntry> = Vec::new();
    let ghost mut reports: Map<u64, Progress> = Map::empty();
    while pos < len
        invariant
            len == bytes@.len(),
            records(entries@, reports),
            within_limits(bytes@) == walk_within_limits(bytes@, pos as nat, tally, reports),
        decreases len - pos,
    {
        let header = bytes[pos];
        let code = header % 4;
        let size: usize = if code == 3 {
            4
        } else {
            code as usize
        };
        let kind = (header / 4) % 4;
        let tag = header / 16;
        if kind == 3 || size > len - pos - 1 {
            return true;
        }
        let value = read_value(bytes, pos + 1, size);
        if kind == 0 && (tag == 8 || tag == 9 || tag == 11) {
            let key: u64 = tag as u64 * 0x2_0000_0000 + match tally.report_id {
                Some(number) => 0x1_0000_0000 + number as u64,
                None => 0,
            };
            assert(key == report_key(tag as nat, tally.report_id));
            let found = find_report(&entries, key);
            let ghost earlier = entries@;
            let (position, broken) = match found {
                Some(i) => (entries[i].position, entries[i].broken),
                None => (0, false),
            };
            assert(progress_of(reports, key) == Progress { position: position as nat, broken });
            match grow(&tally, (value / 2) % 2 == 1, position, broken) {
                Some(now) => {
                    let entry = ReportEntry { key, position: now.0, broken: now.1 };
                    match found {
                        Some(i) => {
                            entries.set(i, entry);
                        },
                        None => {
                            entries.push(entry);
                        },
                    }
                    proof {
                        let before = reports;
                        reports =
                        reports.insert(key, Progress { position: now.0 as nat, broken: now.1 });
                        assert forall|other: u64| #[trigger]
                            reports.dom().contains(other) implies exists|i: int|
                            0 <= i < entries@.len() && (#[trigger] entries@[i]).key == other by {
                            if other == key {
                                match found {
                                    Some(i) => {
                                        assert(entries@[i as int].key == key);
                                    },
                                    None => {
                                        assert(entries@[entries@.len() - 1].key == key);
                                    },
                                }
                            } else {
                                assert(before.dom().contains(other));
                                let i = choose|i: int|
                                    0 <= i < earlier.len() && (#[trigger] earlier[i]).key == other;
                                assert(entries@[i].key == other);
                            }
                        }
                    }
                },
                None => {
                    return false;
                },
            }
            tally =
            Tally {
                has_run: false,
                usable: false,
                pending_minimum: None,
                pending_maximum: None,
                ..tally
            };
        } else if kind == 0 {
            tally =
            Tally {
                has_run: false,
                usable: false,
                pending_minimum: None,
                pending_maximum: None,
                ..tally
            };
        } else {
            tally = note(tally, kind, tag, value, size);
        }
        pos = pos + 1 + size;
    }
    true
}

/// Whether a report of the library is what a parsed report becomes: its
/// number and size kept, and each field converted.
pub open spec fn report_matches(
    report: OutputReport,
    parsed: (Option<u32>, usize, Seq<hidparser::ReportField>),
) -> bool {
    &&& report.report_id == parsed.0
    &&& report.size_in_bits == parsed.1
    &&& report.fields@.len() == parsed.2.len()
    &&& forall|k: int|
        0 <= k < parsed.2.len() ==> (#[trigger] report.fields@[k])@ == converted(
            declared_field(parsed.2[k]),
        )
}

/// In a report whose fields lie in a row, a field ends where a later one
/// starts or before it.
pub proof fn lemma_row_in_order(
    parsed: (Option<u32>, usize, Seq<hidparser::ReportField>),
    i: int,
    j: int,
)
    requires
        in_a_row(parsed),
        0 <= i < j < parsed.2.len(),
    ensures
        declared_field(parsed.2[i]).0.bits().end <= declared_field(parsed.2[j]).0.bits().start,
    decreases j - i,
{
    let fields = parsed.2;
    assert(declared_field(fields[j]).0.bits().start == declared_field(fields[j - 1]).0.bits().end);
    if i < j - 1 {
        lemma_row_in_order(parsed, i, j - 1);
        assert(declared_field(fields[j - 1]).0.bits().start <= declared_field(
            fields[j - 1],
        ).0.bits().end);
    }
}

/// In a report whose fields lie in a row, every field ends within the
/// report.
pub proof fn lemma_row_within_size(
    parsed: (Option<u32>, usize, Seq<hidparser::ReportField>),
    k: int,
)
    requires
        in_a_row(parsed),
        0 <= k < parsed.2.len(),
    ensures
        declared_field(parsed.2[k]).0.bits().start <= declared_field(parsed.2[k]).0.bits().end
            <= parsed.1,
{
    let fields = parsed.2;
    let last = fields.len() - 1;
    assert(declared_field(fields[k]).0.bits().start <= declared_field(fields[k]).0.bits().end);
    if k < last {
        lemma_row_in_order(parsed, k, last);
        assert(declared_field(fields[last]).0.bits().start <= declared_field(
            fields[last],
        ).0.bits().end);
    }
}

/// A report whose fields lie in a row is well laid out.
pub proof fn lemma_row_is_well_laid_out(
    report: OutputReport,
    parsed: (Option<u32>, usize, Seq<hidparser::ReportField>),
)
    requires
        in_a_row(parsed),
        report_matches(report, parsed),
    ensures
        report.well_laid_out(),
{
    let fields = parsed.2;
    assert forall|k: int| 0 <= k < fields.len() implies (#[trigger] report.fields@[k]).spec_bits()
        == declared_field(fields[k]).0.bits() by {
        assert(report.fields@[k]@ == converted(declared_field(fields[k])));
    }
    assert forall|k: int| 0 <= k < report.fields@.len() implies {
        let bits = (#[trigger] report.fields@[k]).spec_bits();
        bits.start <= bits.end <= report.size_in_bits
    } by {
        lemma_row_within_size(parsed, k);
    }
    assert forall|i: int, j: int| 0 <= i < j < report.fields@.len() implies ranges_apart(
        (#[trigger] report.fields@[i]).spec_bits(),
        (#[trigger] report.fields@[j]).spec_bits(),
    ) by {
        lemma_row_in_order(parsed, i, j);
    }
}

/// Reads the output reports that a descriptor declares: the reports that
/// the parser finds, in its order, each with its number, its size and its
/// fields, a variable field with the string index that the parser holds for
/// it. The fields of each report lie within it and share no bit.
///
/// The only error is `DescriptorError`. It comes where the parser cannot
/// read the descriptor, and where a report would outgrow the parser's
/// counter of 32 bits.
pub fn parse_output_reports(bytes: &[u8]) -> (r: Result<Vec<OutputReport>, HidLightError>)
    ensures
        r.is_ok() <==> within_limits(bytes@) && descriptor_parses(bytes@),
        r matches Err(e) ==> e == HidLightError::DescriptorError,
        r matches Ok(layout) ==> {
            &&& layout@.len() == parsed_reports(bytes@).len()
            &&& forall|i: int|
                0 <= i < layout@.len() ==> {
                    &&& report_matches(#[trigger] layout@[i], parsed_reports(bytes@)[i])
                    &&& layout@[i].well_laid_out()
                }
        },
{
    if !is_within_limits(bytes) {
        return Err(HidLightError::DescriptorError);
    }
    match parse_descriptor(bytes) {
        Ok(descriptor) => {
            let declared = declared_outputs(&descriptor);
            let mut layout: Vec<OutputReport> = Vec::new();
            let mut i: usize = 0;
            while i < declared.len()
                invariant
                    i <= declared@.len(),
                    layout@.len() == i,
                    declared@.len() == parsed_reports(bytes@).len(),
                    held_reports(descriptor) == parsed_reports(bytes@),
                    forall|k: int|
                        0 <= k < declared@.len() ==> {
                            &&& (#[trigger] declared@[k]).0 == held_reports(descriptor)[k].0
                            &&& declared@[k].1 == held_reports(descriptor)[k].1
                            &&& declared@[k].2@ == held_reports(descriptor)[k].2
                        },
                    forall|k: int|
                        0 <= k < held_reports(descriptor).len() ==> in_a_row(
                            #[trigger] held_reports(descriptor)[k],
                        ),
                    forall|k: int|
                        0 <= k < i ==> {
                            &&& report_matches(#[trigger] layout@[k], parsed_reports(bytes@)[k])
                            &&& layout@[k].well_laid_out()
                        },
                decreases declared@.len() - i,
            {
                let fields = convert_fields(declared[i].2);
                let report = OutputReport {
                    report_id: declared[i].0,
                    size_in_bits: declared[i].1,
                    fields,
                };
                proof {
                    let parsed = parsed_reports(bytes@)[i as int];
                    assert(in_a_row(held_reports(descriptor)[i as int]));
                    assert(report_matches(report, parsed));
                    lemma_row_is_well_laid_out(report, parsed);
                }
                layout.push(report);
                i += 1;
            }
            Ok(layout)
        },
        Err(_) => Err(HidLightError::DescriptorError),
    }
}

} // verus!
