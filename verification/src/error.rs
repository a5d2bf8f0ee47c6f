use vstd::prelude::*;

verus! {

/// Why a decode or a key derivation failed.
///
/// Every failure belongs to the one call that met it: the same input fails
/// the same way again, so there is nothing to retry.
#[derive(Clone, Copy, Debug, PartialEq, Eq, Structural)]
pub enum Error {
    /// The buffer ends before the value does.
    TruncatedInput,
    /// A byte that must be `0` or `1` holds something else: the byte of a
    /// boolean, or the discriminant byte of an optional.
    InvalidBooleanDiscriminant,
    /// The value ends before the buffer does, and the caller asked for the
    /// whole buffer to be used.
    TrailingBytes,
    /// A hasher was selected that cannot be applied: a name that is none of
    /// the selector names, or the prefix hash in a parameter slot.
    UnsupportedHasher,
}

} // verus!
