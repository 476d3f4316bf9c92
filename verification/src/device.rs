//! What is known of a device before it is opened.

use crate::report::text_of;
use crate::usage::{entry_name, usage_name, usage_table_entry, Usage};
use vstd::prelude::*;

verus! {

/// A device as the transport lists it.
#[derive(Debug)]
pub struct DeviceInfo {
    /// The vendor's number.
    pub vid: u16,
    /// The product's number.
    pub pid: u16,
    /// The name of the product, where the device gives one.
    pub name: Option<String>,
    /// The name of the maker, where the device gives one.
    pub manufacturer: Option<String>,
    /// What the device is for, by the name of its usage in the usage tables.
    pub usage: Option<String>,
    /// The serial number, where the device gives one.
    pub serial: Option<String>,
    /// The path under which the transport opens the device, as bytes.
    pub path: Vec<u8>,
}

/// A text that is there and not empty.
pub open spec fn filled_text(text: Option<Seq<char>>) -> Option<Seq<char>> {
    match text {
        Some(t) => if t.len() == 0 {
            None
        } else {
            Some(t)
        },
        None => None,
    }
}

/// Keeps a text that is there and not empty.
pub fn non_empty(text: Option<String>) -> (r: Option<String>)
    ensures
        text_of(r) == filled_text(text_of(text)),
{
    match text {
        Some(t) => if t.as_str().is_empty() {
            None
        } else {
            Some(t)
        },
        None => None,
    }
}

impl DeviceInfo {
    /// Describes a device from what the transport says of it. An empty
    /// string counts as none, and the usage is given its name from the usage
    /// tables, where they have one.
    pub fn new(
        vid: u16,
        pid: u16,
        product: Option<String>,
        manufacturer: Option<String>,
        serial: Option<String>,
        usage: Usage,
        path: Vec<u8>,
    ) -> (r: DeviceInfo)
        ensures
            r.vid == vid,
            r.pid == pid,
            text_of(r.name) == filled_text(text_of(product)),
            text_of(r.manufacturer) == filled_text(text_of(manufacturer)),
            text_of(r.serial) == filled_text(text_of(serial)),
            text_of(r.usage) == entry_name(usage_table_entry(usage.page, usage.id)),
            r.path == path,
    {
        DeviceInfo {
            vid,
            pid,
            name: non_empty(product),
            manufacturer: non_empty(manufacturer),
            usage: usage_name(usage),
            serial: non_empty(serial),
            path,
        }
    }
}

} // verus!
