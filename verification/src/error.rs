//! The two ways in which a device session fails.

use vstd::prelude::*;

verus! {

/// Why an operation on a device failed.
///
/// The two variants are kept apart so that a caller can tell a device that
/// could not be reached from a device whose descriptor makes no sense.
#[derive(Debug, PartialEq, Eq)]
pub enum HidLightError {
    /// The transport failed: listing, opening, reading or writing. The text is
    /// what the transport said.
    HidApi(String),
    /// The report descriptor could not be read as a list of reports.
    DescriptorError,
}

impl HidLightError {
    /// Whether the transport failed, as opposed to the descriptor.
    pub open spec fn spec_is_transport(&self) -> bool {
        self is HidApi
    }

    /// Whether the transport failed, as opposed to the descriptor.
    #[verifier::when_used_as_spec(spec_is_transport)]
    pub fn is_transport(&self) -> (r: bool)
        ensures
            r == self.spec_is_transport(),
    {
        match self {
            HidLightError::HidApi(_) => true,
            HidLightError::DescriptorError => false,
        }
    }

    /// What the error says of itself.
    pub open spec fn spec_message(&self) -> Seq<char> {
        match self {
            HidLightError::HidApi(_) => "HIDAPI Failure"@,
            HidLightError::DescriptorError => "Descriptor parse error"@,
        }
    }

    /// A short text for the error, fit for a user.
    pub fn message(&self) -> (r: String)
        ensures
            r@ == self.spec_message(),
    {
        match self {
            HidLightError::HidApi(_) => "HIDAPI Failure".to_owned(),
            HidLightError::DescriptorError => "Descriptor parse error".to_owned(),
        }
    }
}

} // verus!
