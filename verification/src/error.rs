use vstd::prelude::*;

verus! {

/// Why a cursor operation or a decode stopped.
#[derive(Clone, Copy, Debug, PartialEq, Eq, Structural)]
pub enum DecodeError {
    /// A seek aimed before the first byte of the data.
    IoFailure,
    /// The data ends before the bytes that a header, a record or a pool
    /// entry needs.
    TruncatedRecord,
    /// The bytes of a pool entry are not valid UTF-8.
    InvalidEncoding,
}

impl DecodeError {
    /// A short description of the failure, for messages.
    pub fn message(&self) -> (text: &'static str)
        ensures
            text@ == (match *self {
                DecodeError::IoFailure => "invalid seek"@,
                DecodeError::TruncatedRecord => "truncated record"@,
                DecodeError::InvalidEncoding => "invalid text encoding"@,
            }),
    {
        match self {
            DecodeError::IoFailure => "invalid seek",
            DecodeError::TruncatedRecord => "truncated record",
            DecodeError::InvalidEncoding => "invalid text encoding",
        }
    }
}

/// Whether the result `got` carries a value whose view `expected` names, or
/// the error that `expected` names.
pub open spec fn yields<T: View>(got: Result<T, DecodeError>, expected: Result<T::V, DecodeError>) -> bool {
    match expected {
        Ok(v) => got matches Ok(x) && x@ == v,
        Err(e) => got matches Err(found) && found == e,
    }
}

} // verus!
