//! Controllable outputs of USB HID devices: LEDs, backlights, toggles.
//!
//! A device describes its output reports in a report descriptor. This crate
//! turns the fields of those reports into a flat list of named controls, and
//! packs the level that a caller gives each control into the bytes of the
//! report that the device expects.
//!
//! Everything here works on plain values. Opening a device, reading its
//! descriptor and its strings, and sending a report are left to the caller.
//!
//! The level of a control is a fraction between zero and one, held as a whole
//! number of units of which [`LEVEL_ONE`] make one. Every control starts at
//! zero: what a device shows at the moment is never read back.
//!
//! A session runs through four steps: [`parse_output_reports`] on the bytes of
//! the descriptor, [`string_indices`] to learn which strings to read from the
//! device, [`build_reports`] with those strings, and, whenever a level has
//! changed, [`encode`] on the report that holds the control.

pub mod builder;
pub mod builder_laws;
pub mod codec;
pub mod codec_laws;
pub mod descriptor;
pub mod device;
pub mod error;
pub mod layout;
pub mod names;
pub mod report;
pub mod usage;

pub use builder::{build_report, build_reports, string_indices};
pub use codec::encode;
pub use descriptor::parse_output_reports;
pub use device::DeviceInfo;
pub use error::HidLightError;
pub use layout::{ArrayField, OutputField, OutputReport, PaddingField, StringRange, VariableField};
pub use names::{indexed_name, parent_name, DeviceStrings, IndexedString};
pub use report::{DeviceOutput, DeviceOutputValue, Report, LEVEL_EPSILON, LEVEL_ONE};
pub use usage::{is_vendor_usage, usage_name, Usage};
