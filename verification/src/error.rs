//! The failures that the registry reports.

use vstd::prelude::*;

verus! {

/// Why an operation of the registry did not succeed.
///
/// Every failure is handed to the caller as one of these values. None of them
/// is retried by the library.
#[derive(Clone, Copy, Debug, PartialEq, Eq, Structural, Hash)]
pub enum ErrorCode {
    /// The address that belongs to the (creator, digest) pair is already
    /// allocated: the claim was registered before.
    DuplicateMint,
    /// The content digest is not exactly 32 bytes long.
    InvalidTrackHash,
    /// Nothing is stored at the address that belongs to the pair.
    ProofOfCreationNotFound,
    /// The creator or the payer did not authorize the registration.
    AuthorizationFailed,
    /// No discriminator byte gave an address outside the reserved region.
    AddressSpaceExhausted,
    /// The stored bytes are not the encoding of a record.
    MalformedRecord,
}

} // verus!
