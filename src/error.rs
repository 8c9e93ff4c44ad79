use vstd::prelude::*;

verus! {

/// Why a frame, a header or a field could not be decoded or written.
#[derive(Debug, Clone, Copy, PartialEq, Eq, Structural)]
pub enum PacketError {
    /// A header or field access would run past the end of the valid bytes.
    BufferTooShort,
    /// The Ethernet header names a network protocol that is not decoded.
    UnsupportedEtherType(u16),
    /// The network header names a transport protocol that is not decoded.
    UnsupportedProtocol(u8),
    /// A value does not fit in the bit width of the field it is written to.
    RangeError,
}

} // verus!
