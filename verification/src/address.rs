//! Derivation of the storage address that belongs to a (creator, digest) pair.
//!
//! The address is computed from a fixed namespace tag, the creator's identity,
//! the content digest and one discriminator byte. Not every discriminator gives
//! a usable address: a candidate that is a point of the ed25519 curve could be
//! the public key of an ordinary signer and is rejected. The search starts at
//! the discriminator 255 and walks down to 0, and the first usable candidate is
//! the address of the pair.

use vstd::prelude::*;
use anchor_lang::prelude::Pubkey;
use crate::error::ErrorCode;

verus! {

/// The namespace tag that opens every seed list: the text `proof-of-creation`.
pub const NAMESPACE_TAG: [u8; 17] = [
    112, 114, 111, 111, 102, 45, 111, 102, 45, 99, 114, 101, 97, 116, 105, 111, 110,
];

/// The identity of the program that owns the records:
/// `8Hh439HNMKGRTD1gmnifrJ2RrP6y8PsKwHRRQyponubt` in base 58.
pub const PROGRAM_ID: [u8; 32] = [
    108, 72, 99, 135, 1, 61, 90, 129, 53, 226, 31, 182, 12, 13, 147, 252,
    195, 10, 54, 240, 204, 221, 125, 35, 224, 9, 221, 216, 62, 146, 228, 255,
];

/// The discriminator at which every search starts.
pub const FIRST_BUMP: u8 = 255;

/// The namespace tag as a sequence of bytes.
pub open spec fn namespace_tag() -> Seq<u8> {
    NAMESPACE_TAG@
}

/// The program's identity as a sequence of bytes.
pub open spec fn program_id() -> Seq<u8> {
    PROGRAM_ID@
}

/// What `Pubkey::create_program_address` yields for the seed list
/// `[tag, creator, track_hash, [bump]]` under the program `program`:
/// the 32 bytes of the address, or `None` where it reports an error.
pub uninterp spec fn program_address(
    tag: Seq<u8>,
    creator: Seq<u8>,
    track_hash: Seq<u8>,
    bump: u8,
    program: Seq<u8>,
) -> Option<Seq<u8>>;

/// Calls `Pubkey::create_program_address` on the four seeds `tag`, `creator`,
/// `track_hash` and the single byte `bump`, for the program `program`.
///
/// Nothing is proved of this call. The contract only gives its outcome a name:
/// the address bytes on `Ok`, `None` on either of its errors (a seed list it
/// does not accept, or a hash that is a point of the ed25519 curve).
#[verifier::external_body]
fn create_program_address(
    tag: &[u8],
    creator: &[u8; 32],
    track_hash: &[u8; 32],
    bump: u8,
    program: &[u8; 32],
) -> (r: Option<[u8; 32]>)
    ensures
        match r {
            Some(a) => program_address(tag@, creator@, track_hash@, bump, program@) == Some(a@),
            None => program_address(tag@, creator@, track_hash@, bump, program@) is None,
        },
{
    let seeds: [&[u8]; 4] = [tag, creator, track_hash, &[bump]];
    match Pubkey::create_program_address(&seeds, &Pubkey::new_from_array(*program)) {
        Ok(key) => Some(key.to_bytes()),
        Err(_) => None,
    }
}

/// The candidate address of the pair at the discriminator `bump`, or `None`
/// where that discriminator gives no usable address.
pub open spec fn candidate(creator: Seq<u8>, track_hash: Seq<u8>, bump: u8) -> Option<Seq<u8>> {
    program_address(namespace_tag(), creator, track_hash, bump, program_id())
}

/// The mathematical value of a derived address: its bytes and the
/// discriminator that gave them.
pub struct DerivedView {
    pub address: Seq<u8>,
    pub bump: u8,
}

/// An address together with the discriminator that gave it.
#[derive(Clone, Copy, Debug, PartialEq, Eq, Hash)]
pub struct DerivedAddress {
    pub address: [u8; 32],
    pub bump: u8,
}

impl View for DerivedAddress {
    type V = DerivedView;

    open spec fn view(&self) -> DerivedView {
        DerivedView { address: self.address@, bump: self.bump }
    }
}

/// The result of the search that starts at the discriminator `from` and walks
/// down to 0: the first usable candidate, or `None` if there is none.
pub open spec fn search(creator: Seq<u8>, track_hash: Seq<u8>, from: u8) -> Option<DerivedView>
    decreases from,
{
    match candidate(creator, track_hash, from) {
        Some(address) => Some(DerivedView { address, bump: from }),
        None => if from == 0 {
            None
        } else {
            search(creator, track_hash, (from - 1) as u8)
        },
    }
}

/// The address of the pair: the result of the search from 255.
pub open spec fn derived(creator: Seq<u8>, track_hash: Seq<u8>) -> Option<DerivedView> {
    search(creator, track_hash, 255)
}

/// `found` is the usable candidate with the greatest discriminator up to `from`.
pub open spec fn is_first_usable(
    creator: Seq<u8>,
    track_hash: Seq<u8>,
    from: u8,
    found: DerivedView,
) -> bool {
    &&& found.bump <= from
    &&& candidate(creator, track_hash, found.bump) == Some(found.address)
    &&& forall|b: u8| found.bump < b <= from ==> candidate(creator, track_hash, b) is None
}

/// No discriminator up to `from` gives a usable candidate.
pub open spec fn none_usable(creator: Seq<u8>, track_hash: Seq<u8>, from: u8) -> bool {
    forall|b: u8| b <= from ==> candidate(creator, track_hash, b) is None
}

/// The search finds the usable candidate with the greatest discriminator, and
/// finds nothing exactly when no discriminator is usable.
pub proof fn lemma_search_finds_first_usable(creator: Seq<u8>, track_hash: Seq<u8>, from: u8)
    ensures
        match search(creator, track_hash, from) {
            Some(found) => is_first_usable(creator, track_hash, from, found),
            None => none_usable(creator, track_hash, from),
        },
    decreases from,
{
    if candidate(creator, track_hash, from) is None && from > 0 {
        lemma_search_finds_first_usable(creator, track_hash, (from - 1) as u8);
    }
}

/// Derivation is deterministic: a pair has at most one first usable candidate,
/// so two derivations of one pair agree in address and discriminator.
pub proof fn lemma_first_usable_is_unique(
    creator: Seq<u8>,
    track_hash: Seq<u8>,
    from: u8,
    first: DerivedView,
    second: DerivedView,
)
    requires
        is_first_usable(creator, track_hash, from, first),
        is_first_usable(creator, track_hash, from, second),
    ensures
        first == second,
{
    if first.bump < second.bump {
        assert(candidate(creator, track_hash, second.bump) is None);
    } else if second.bump < first.bump {
        assert(candidate(creator, track_hash, first.bump) is None);
    }
}

/// The address of a pair is its usable candidate with the greatest
/// discriminator, and a pair has no address exactly when no discriminator is
/// usable. So the address and the discriminator depend on the pair alone.
pub proof fn lemma_derived_is_first_usable(
    creator: Seq<u8>,
    track_hash: Seq<u8>,
    found: DerivedView,
)
    ensures
        derived(creator, track_hash) == Some(found) <==> is_first_usable(
            creator,
            track_hash,
            255,
            found,
        ),
        derived(creator, track_hash) is None <==> none_usable(creator, track_hash, 255),
{
    lemma_search_finds_first_usable(creator, track_hash, 255);
    if is_first_usable(creator, track_hash, 255, found) {
        match derived(creator, track_hash) {
            Some(first) => {
                lemma_first_usable_is_unique(creator, track_hash, 255, first, found);
            },
            None => {
                assert(candidate(creator, track_hash, found.bump) is None);
            },
        }
    }
    if none_usable(creator, track_hash, 255) {
        if let Some(first) = derived(creator, track_hash) {
            assert(candidate(creator, track_hash, first.bump) is None);
        }
    }
}

/// How the search goes on after one attempt.
#[derive(Clone, Copy, Debug, PartialEq, Eq, Hash)]
pub enum Probe {
    /// The attempt gave a usable address: the search ends with it.
    Found(DerivedAddress),
    /// The attempt gave none: the search goes on at this smaller discriminator.
    Retry(u8),
}

/// What follows from `outcome`, the result of the attempt at `bump`: the
/// search ends with the address, or goes on one discriminator lower, or,
/// below the discriminator 0, fails.
pub open spec fn probe_of(outcome: Option<[u8; 32]>, bump: u8) -> Result<Probe, ErrorCode> {
    match outcome {
        Some(address) => Ok(Probe::Found(DerivedAddress { address, bump })),
        None => if bump == 0 {
            Err(ErrorCode::AddressSpaceExhausted)
        } else {
            Ok(Probe::Retry((bump - 1) as u8))
        },
    }
}

/// Decides how the search goes on after the attempt at `bump` gave `outcome`.
///
/// Fails with `AddressSpaceExhausted` exactly when the attempt at the
/// discriminator 0 gave no address.
pub fn probe(outcome: Option<[u8; 32]>, bump: u8) -> (p: Result<Probe, ErrorCode>)
    ensures
        p == probe_of(outcome, bump),
{
    match outcome {
        Some(address) => Ok(Probe::Found(DerivedAddress { address, bump })),
        None => if bump == 0 {
            Err(ErrorCode::AddressSpaceExhausted)
        } else {
            Ok(Probe::Retry(bump - 1))
        },
    }
}

/// The candidate address of the pair at the discriminator `bump`.
///
/// A caller that kept the discriminator of an earlier derivation gets the
/// address again with one attempt.
pub fn candidate_address(creator: &[u8; 32], track_hash: &[u8; 32], bump: u8) -> (r: Option<
    [u8; 32],
>)
    ensures
        match r {
            Some(a) => candidate(creator@, track_hash@, bump) == Some(a@),
            None => candidate(creator@, track_hash@, bump) is None,
        },
{
    create_program_address(NAMESPACE_TAG.as_slice(), creator, track_hash, bump, &PROGRAM_ID)
}

/// Derives the address of the pair (`creator`, `track_hash`).
///
/// Tries the discriminators from 255 down to 0 and returns the first usable
/// candidate with its discriminator. Fails with `AddressSpaceExhausted` exactly
/// when no discriminator gives a usable candidate.
pub fn find_proof_address(creator: &[u8; 32], track_hash: &[u8; 32]) -> (r: Result<
    DerivedAddress,
    ErrorCode,
>)
    ensures
        match r {
            Ok(found) => derived(creator@, track_hash@) == Some(found@),
            Err(e) => e == ErrorCode::AddressSpaceExhausted && derived(creator@, track_hash@)
                is None,
        },
{
    let mut bump: u8 = FIRST_BUMP;
    loop
        invariant
            search(creator@, track_hash@, bump) == derived(creator@, track_hash@),
        decreases bump,
    {
        let outcome = candidate_address(creator, track_hash, bump);
        match probe(outcome, bump) {
            Ok(Probe::Found(found)) => {
                return Ok(found);
            },
            Ok(Probe::Retry(next)) => {
                bump = next;
            },
            Err(e) => {
                return Err(e);
            },
        }
    }
}

} // verus!
