use vstd::prelude::*;

verus! {

/// Why a descriptor could not be parsed.
#[derive(Clone, Copy, Debug, PartialEq, Eq, Structural)]
pub enum DescriptorError {
    /// The input is shorter than the fixed header, or the header's own
    /// fields are inconsistent.
    InvalidHeader,
    /// A declared length reaches past the bytes that are actually there.
    InvalidSize,
    /// A text field is not nul-terminated within its width, or is not UTF-8.
    InvalidText,
}

/// Result of a descriptor parsing step.
pub type DescriptorResult<T> = Result<T, DescriptorError>;

} // verus!
