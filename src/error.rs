use vstd::prelude::*;

verus! {

/// What can go wrong while operating on a secret container.
#[derive(Debug, Clone, Copy, PartialEq, Eq, Structural)]
pub enum StoreError {
    /// A key or an initialization vector of the wrong length was supplied.
    InvalidInput,
    /// The secure random generator could not provide fresh bytes.
    RandomnessError,
    /// A payload could not be encoded or decoded.
    SerializationError,
    /// The cipher rejected its input (a wrong key or corrupt data).
    CryptoError,
    /// An entry with the requested name is already stored.
    DuplicateEntry,
}

impl StoreError {
    /// A short human-readable description of the failure.
    pub fn message(&self) -> (r: &'static str)
    {
        match self {
            StoreError::InvalidInput => "invalid key or initialization vector length",
            StoreError::RandomnessError => "internal error generating random bytes",
            StoreError::SerializationError => "the data could not be encoded or decoded",
            StoreError::CryptoError => "the cipher rejected the data (wrong password or corrupt file)",
            StoreError::DuplicateEntry => "an entry with this name already exists",
        }
    }
}

} // verus!
