use vstd::prelude::*;

verus! {

/// Every failure the codec can report. Each is a value handed to the
/// immediate caller; no failure is retried or escalated inside the codec.
#[derive(Clone, Copy, Debug, PartialEq, Eq, Structural)]
pub enum CodecError {
    /// A variable-byte integer ran past four bytes, or a value above
    /// 2^28 - 1 was given to the encoder.
    MalformedVariableInt,
    /// A read or write would pass the end of the available bytes.
    EndOfBuffer,
    /// The fixed header names a different packet kind than the decoder invoked.
    WrongPacketType,
    /// A property identifier with no known wire shape.
    UnknownPropertyIdentifier,
    /// The declared property-block length and the bytes actually consumed differ.
    PropertyLengthMismatch,
    /// The bounded property sequence is full.
    CapacityExceeded,
}

} // verus!
