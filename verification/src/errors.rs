//! Failure values reported by the codec, the address parser and the
//! peer-configuration protocol. All failures are immediate and local;
//! the caller decides any retry policy.

use vstd::prelude::*;

verus! {

/// Why a byte string was rejected as an ILP address.
#[derive(Debug, Clone, PartialEq, Eq)]
pub enum AddressError {
    /// The input was longer than the maximum address length; carries the
    /// offending length.
    InvalidLength(usize),
    /// The input did not match the address grammar.
    InvalidFormat,
}

impl AddressError {
    /// A short, fixed description of the failure kind.
    pub fn description(&self) -> (r: &'static str)
        ensures
            self is InvalidLength ==> r@ == "Invalid address length"@,
            self is InvalidFormat ==> r@ == "Invalid address format"@,
    {
        match *self {
            AddressError::InvalidLength(_length) => "Invalid address length",
            AddressError::InvalidFormat => "Invalid address format",
        }
    }
}

/// A typed parse failure. There is no partial-success state: any parse
/// either fully succeeds or reports one of these and leaves nothing
/// half-initialized.
#[derive(Debug, Clone, PartialEq, Eq)]
pub enum ParseError {
    /// The underlying buffer ended before the declared length was satisfied.
    Io,
    /// A field required to be text was not valid UTF-8.
    Utf8,
    /// An owned field required to be text was not valid UTF-8.
    FromUtf8,
    /// An expiry or timestamp field did not parse.
    TimestampFormat,
    /// A field's structural tag did not match what was expected.
    WrongType,
    /// The packet was well-formed at the byte level but semantically
    /// inconsistent.
    InvalidPacket,
    /// The address grammar or length was violated.
    InvalidAddress(AddressError),
}

} // verus!
