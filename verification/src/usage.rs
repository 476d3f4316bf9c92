//! Usages, and what the HID usage tables know of them.

use crate::report::text_of;
use hut::AsUsagePage;
use vstd::prelude::*;

verus! {

/// A usage: the page that gives it meaning, and its number on that page.
#[derive(Debug, Clone, Copy, PartialEq, Eq, Structural)]
pub struct Usage {
    pub page: u16,
    pub id: u16,
}

/// What the usage tables hold for a usage: the page that it resolves to and
/// its printable name, or nothing where the tables do not know it.
pub uninterp spec fn usage_table_entry(page: u16, id: u16) -> Option<(u16, Seq<char>)>;

/// The pages of the standard taxonomy whose usages are safe to show.
pub open spec fn is_standard_page(page: u16) -> bool {
    ||| 0x01 <= page <= 0x12  // generic desktop .. eye and head trackers
    ||| page == 0x14  // auxiliary display
    ||| page == 0x20  // sensors
    ||| page == 0x40  // medical instrument
    ||| page == 0x41  // braille display
    ||| page == 0x59  // lighting and illumination
    ||| page == 0x80  // monitor
    ||| page == 0x81  // monitor enumerated
    ||| page == 0x82  // VESA virtual controls
    ||| page == 0x84  // power
    ||| page == 0x85  // battery system
    ||| page == 0x8C  // barcode scanner
    ||| page == 0x8D  // scales
    ||| page == 0x8E  // magnetic stripe reader
    ||| page == 0x90  // camera control
    ||| page == 0x91  // arcade
    ||| page == 0xF1D0  // FIDO alliance
    ||| page == 0xFF0D  // Wacom
}

/// Whether a usage with this table entry is kept from the caller: it is,
/// unless the tables know it and place it on a standard page.
pub open spec fn entry_is_vendor(entry: Option<(u16, Seq<char>)>) -> bool {
    match entry {
        Some(e) => !is_standard_page(e.0),
        None => true,
    }
}

/// The name that a table entry gives, if there is an entry.
pub open spec fn entry_name(entry: Option<(u16, Seq<char>)>) -> Option<Seq<char>> {
    match entry {
        Some(e) => Some(e.1),
        None => None,
    }
}

/// The view of an entry as the tables' spec function gives it.
pub open spec fn entry_view(entry: Option<(u16, String)>) -> Option<(u16, Seq<char>)> {
    match entry {
        Some(e) => Some((e.0, e.1@)),
        None => None,
    }
}

/// Asks the `hut` crate for a usage: `hut::Usage::new_from_page_and_id`, then
/// `usage_page_value` and `name` of what it found.
///
/// Not proved: that the answer is the one that `usage_table_entry` stands for.
/// The tables are compiled into `hut`, so the answer depends on the two
/// numbers alone.
#[verifier::external_body]
pub(crate) fn table_entry(page: u16, id: u16) -> (r: Option<(u16, String)>)
    ensures
        entry_view(r) == usage_table_entry(page, id),
{
    match hut::Usage::new_from_page_and_id(page, id) {
        Ok(found) => Some((found.usage_page_value(), found.name())),
        Err(_) => None,
    }
}

/// Whether `page` is one of the standard pages.
pub fn standard_page(page: u16) -> (r: bool)
    ensures
        r == is_standard_page(page),
{
    (0x01 <= page && page <= 0x12) || page == 0x14 || page == 0x20 || page == 0x40 || page == 0x41
        || page == 0x59 || page == 0x80 || page == 0x81 || page == 0x82 || page == 0x84 || page
        == 0x85 || page == 0x8C || page == 0x8D || page == 0x8E || page == 0x90 || page == 0x91
        || page == 0xF1D0 || page == 0xFF0D
}

/// Decides from a table entry whether the usage is hidden. A usage without an
/// entry is hidden: what is not known is not offered for blind manipulation.
pub fn vendor_entry(entry: &Option<(u16, String)>) -> (r: bool)
    ensures
        r == entry_is_vendor(entry_view(*entry)),
{
    match entry {
        Some(e) => !standard_page(e.0),
        None => true,
    }
}

/// Whether the usage is vendor-defined, reserved or unknown, and so hidden.
pub fn is_vendor_usage(usage: Usage) -> (r: bool)
    ensures
        r == entry_is_vendor(usage_table_entry(usage.page, usage.id)),
{
    let entry = table_entry(usage.page, usage.id);
    vendor_entry(&entry)
}

/// The name that the usage tables give the usage, if they know it.
pub fn usage_name(usage: Usage) -> (r: Option<String>)
    ensures
        text_of(r) == entry_name(usage_table_entry(usage.page, usage.id)),
{
    match table_entry(usage.page, usage.id) {
        Some(e) => Some(e.1),
        None => None,
    }
}

impl Usage {
    /// The usage that a 32-bit usage value stands for: the page in its upper
    /// half, the number in its lower half.
    pub open spec fn spec_from_value(value: u32) -> Usage {
        Usage { page: (value / 0x1_0000) as u16, id: (value % 0x1_0000) as u16 }
    }

    /// Splits a 32-bit usage value into page and number.
    pub fn from_value(value: u32) -> (r: Usage)
        ensures
            r == Self::spec_from_value(value),
    {
        Usage { page: (value / 0x1_0000) as u16, id: (value % 0x1_0000) as u16 }
    }
}

} // verus!
