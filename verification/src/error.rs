use vstd::prelude::*;

verus! {

/// Why a decoder rejected its input.
///
/// Every decoder in this crate reports `TruncatedInput` when the slice it was
/// given is shorter than the encoding requires, and `InvalidEncoding` when a
/// varint fails to terminate within its five-byte cap or a boolean byte is
/// neither zero nor one. `InvalidUtf8` is reserved for a client id whose
/// bytes are not a UTF-8 encoding.
#[derive(Clone, Copy, Debug, PartialEq, Eq, Structural)]
pub enum DecodeError {
    TruncatedInput,
    InvalidEncoding,
    InvalidUtf8,
}

} // verus!
