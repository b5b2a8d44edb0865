use vstd::prelude::*;

verus! {

/// Why a decode failed.
#[derive(Debug, Clone, Copy, PartialEq, Eq, Structural)]
pub enum BitcoinError {
    /// The buffer ends before the field being read.
    InsufficientBytes,
    /// The text form of a transaction id is malformed.
    InvalidFormat,
}

/// The result of a decode, with the decoded value replaced by its view and
/// the consumed length by an integer.
pub open spec fn decoded<T: View>(r: Result<(T, usize), BitcoinError>) -> Result<
    (T::V, int),
    BitcoinError,
> {
    match r {
        Ok((v, n)) => Ok((v@, n as int)),
        Err(e) => Err(e),
    }
}

} // verus!
