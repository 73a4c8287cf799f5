use vstd::prelude::*;

verus! {

/// Why a value could not be decoded.
#[derive(Debug, Clone, Copy, PartialEq, Eq, Structural)]
pub enum Error {
    /// The input ended inside an item.
    UnexpectedEnd,
    /// The next item is not of the kind that was asked for, or its header
    /// uses a form this codec does not read.
    UnexpectedType,
    /// A fixed-size byte field has the wrong number of bytes.
    InvalidLength,
    /// A coin amount above the supply ceiling, or a number too large for the
    /// 32-bit field it belongs to.
    OutOfBounds,
    /// An array has the wrong number of elements.
    MalformedStructure,
    /// The checksum of a wrapped payload does not match its bytes.
    ChecksumMismatch,
    /// A witness form, tag, attribute or address kind that this format
    /// revision does not define.
    Unsupported,
}

} // verus!
