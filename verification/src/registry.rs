//! The registry of proof-of-creation records.
//!
//! `mint_proof_of_creation` registers the claim of a creator on a content
//! digest, at most once per (creator, digest) pair. `get_proof_of_creation`
//! finds the record of a pair again. Both locate the record at the address
//! derived from the pair alone; nothing else is stored.

use vstd::prelude::*;
use crate::address::{derived, find_proof_address, DerivedAddress, DerivedView};
use crate::bytes::take_array;
use crate::error::ErrorCode;
use crate::ledger::{loaded, Ledger};
use crate::record::{encoding, lemma_decoding_of_encoding, ProofOfCreation, RecordView};

verus! {

/// A party to a request: its identity, and whether the host has verified that
/// it authorized the request.
#[derive(Clone, Copy, Debug, PartialEq, Eq, Hash)]
pub struct Party {
    pub key: [u8; 32],
    pub is_signer: bool,
}

/// The parties to `initialize`: none.
#[derive(Clone, Copy, Debug, PartialEq, Eq, Hash)]
pub struct Initialize {}

/// The parties to a registration.
#[derive(Clone, Copy, Debug, PartialEq, Eq, Hash)]
pub struct MintProof {
    /// The creator, whose identity is written into the record.
    pub artist: Party,
    /// Whoever bears the cost of the allocation. May be the creator.
    pub payer: Party,
}

/// The parties to a lookup.
#[derive(Clone, Copy, Debug, PartialEq, Eq, Hash)]
pub struct GetProof {
    /// The creator whose record is looked up. No authorization is needed.
    pub artist: [u8; 32],
}

impl MintProof {
    /// Both the creator and the payer authorized the registration.
    pub open spec fn authorized(&self) -> bool {
        self.artist.is_signer && self.payer.is_signer
    }
}

/// The mathematical value of a registration: where the record goes, and the
/// record.
pub struct RegistrationView {
    pub found: DerivedView,
    pub record: RecordView,
}

/// What a registration stores, and where.
#[derive(Clone, Copy, Debug, PartialEq, Eq, Hash)]
pub struct Registration {
    /// The address of the pair, with the discriminator that gave it.
    pub found: DerivedAddress,
    /// The record to store there.
    pub record: ProofOfCreation,
}

impl View for Registration {
    type V = RegistrationView;

    open spec fn view(&self) -> RegistrationView {
        RegistrationView { found: self.found@, record: self.record@ }
    }
}

/// What the request to register the pair (`creator`, `track_hash`) at the
/// time `now` asks for, whatever is stored: the record and its address, or
/// the first of the failures, in this order, that applies.
pub open spec fn registration(creator: Seq<u8>, authorized: bool, track_hash: Seq<u8>, now: int)
    -> Result<RegistrationView, ErrorCode> {
    if track_hash.len() != 32 {
        Err(ErrorCode::InvalidTrackHash)
    } else if !authorized {
        Err(ErrorCode::AuthorizationFailed)
    } else {
        match derived(creator, track_hash) {
            None => Err(ErrorCode::AddressSpaceExhausted),
            Some(found) => Ok(
                RegistrationView {
                    found,
                    record: RecordView { creator, content_hash: track_hash, timestamp: now },
                },
            ),
        }
    }
}

/// What registering the pair (`creator`, `track_hash`) at the time `now`
/// returns in the storage `store`: the new record, or the failure of the
/// request, or `DuplicateMint` where the pair's address is already allocated.
pub open spec fn mint_outcome(
    store: Map<Seq<u8>, Seq<u8>>,
    creator: Seq<u8>,
    authorized: bool,
    track_hash: Seq<u8>,
    now: int,
) -> Result<RecordView, ErrorCode> {
    match registration(creator, authorized, track_hash, now) {
        Err(e) => Err(e),
        Ok(request) => if store.dom().contains(request.found.address) {
            Err(ErrorCode::DuplicateMint)
        } else {
            Ok(request.record)
        },
    }
}

/// The storage after that registration: on success the record's encoding is
/// stored at the pair's address, on failure nothing has changed.
pub open spec fn mint_store(
    store: Map<Seq<u8>, Seq<u8>>,
    creator: Seq<u8>,
    authorized: bool,
    track_hash: Seq<u8>,
    now: int,
) -> Map<Seq<u8>, Seq<u8>> {
    match mint_outcome(store, creator, authorized, track_hash, now) {
        Ok(record) => store.insert(derived(creator, track_hash)->0.address, encoding(record)),
        Err(_) => store,
    }
}

/// What looking up the pair (`creator`, `track_hash`) returns in the storage
/// `store`.
pub open spec fn get_outcome(store: Map<Seq<u8>, Seq<u8>>, creator: Seq<u8>, track_hash: Seq<u8>)
    -> Result<RecordView, ErrorCode> {
    match derived(creator, track_hash) {
        None => Err(ErrorCode::AddressSpaceExhausted),
        Some(found) => loaded(store, found.address),
    }
}

/// Does nothing and succeeds: the registry needs no setup.
pub fn initialize(_ctx: &Initialize) -> (r: Result<(), ErrorCode>)
    ensures
        r == Ok::<(), ErrorCode>(()),
{
    Ok(())
}

/// Checks a request to register the claim of `ctx.artist` on the content
/// with digest `track_hash` at the time `now`, and says what it stores where.
///
/// Touches no storage: a host that owns the storage allocates the address
/// itself, atomically and only if it is free, and writes the record's
/// encoding there.
///
/// The checks come in this order, and the first that fails decides:
/// `InvalidTrackHash` unless the digest is exactly 32 bytes;
/// `AuthorizationFailed` unless both the creator and the payer authorized;
/// `AddressSpaceExhausted` if the pair has no address.
pub fn prepare_registration(ctx: &MintProof, track_hash: &[u8], now: i64) -> (r: Result<
    Registration,
    ErrorCode,
>)
    ensures
        match r {
            Ok(request) => registration(
                ctx.artist.key@,
                ctx.authorized(),
                track_hash@,
                now as int,
            ) == Ok::<_, ErrorCode>(request@),
            Err(e) => registration(ctx.artist.key@, ctx.authorized(), track_hash@, now as int)
                == Err::<RegistrationView, _>(e),
        },
{
    if track_hash.len() != 32 {
        return Err(ErrorCode::InvalidTrackHash);
    }
    if !ctx.artist.is_signer || !ctx.payer.is_signer {
        return Err(ErrorCode::AuthorizationFailed);
    }
    let digest: [u8; 32] = take_array(track_hash, 0);
    assert(digest@ =~= track_hash@);
    match find_proof_address(&ctx.artist.key, &digest) {
        Ok(found) => Ok(
            Registration {
                found,
                record: ProofOfCreation {
                    artist: ctx.artist.key,
                    track_hash: digest,
                    timestamp: now,
                },
            },
        ),
        Err(e) => Err(e),
    }
}

/// Registers the claim of `ctx.artist` on the content with digest
/// `track_hash`, at the time `now` that the trusted clock reports.
///
/// The checks come in this order, and the first that fails decides:
/// `InvalidTrackHash` unless the digest is exactly 32 bytes;
/// `AuthorizationFailed` unless both the creator and the payer authorized;
/// `AddressSpaceExhausted` if the pair has no address; `DuplicateMint` if the
/// pair's address is already allocated. Otherwise the record
/// (creator, digest, `now`) is stored at the pair's address and returned.
/// On every failure the storage is exactly as it was.
pub fn mint_proof_of_creation(
    ledger: &mut Ledger,
    ctx: &MintProof,
    track_hash: &[u8],
    now: i64,
) -> (r: Result<ProofOfCreation, ErrorCode>)
    ensures
        match r {
            Ok(record) => mint_outcome(
                old(ledger)@,
                ctx.artist.key@,
                ctx.authorized(),
                track_hash@,
                now as int,
            ) == Ok::<_, ErrorCode>(record@),
            Err(e) => mint_outcome(
                old(ledger)@,
                ctx.artist.key@,
                ctx.authorized(),
                track_hash@,
                now as int,
            ) == Err::<RecordView, _>(e),
        },
        final(ledger)@ == mint_store(
            old(ledger)@,
            ctx.artist.key@,
            ctx.authorized(),
            track_hash@,
            now as int,
        ),
        r is Err ==> final(ledger)@ == old(ledger)@,
        track_hash@.len() != 32 ==> r == Err::<ProofOfCreation, _>(ErrorCode::InvalidTrackHash),
{
    let request = match prepare_registration(ctx, track_hash, now) {
        Ok(request) => request,
        Err(e) => {
            return Err(e);
        },
    };
    match ledger.store_record(&request.found.address, &request.record) {
        Ok(()) => Ok(request.record),
        Err(e) => Err(e),
    }
}

/// Looks up the record of the pair (`ctx.artist`, `track_hash`).
///
/// Fails with `AddressSpaceExhausted` if the pair has no address, with
/// `ProofOfCreationNotFound` if nothing is allocated at its address, and with
/// `MalformedRecord` if the bytes stored there are not the encoding of a
/// record. Otherwise returns the record that the bytes hold. The storage is
/// only read.
pub fn get_proof_of_creation(ledger: &Ledger, ctx: &GetProof, track_hash: &[u8; 32]) -> (r: Result<
    ProofOfCreation,
    ErrorCode,
>)
    ensures
        match r {
            Ok(record) => get_outcome(ledger@, ctx.artist@, track_hash@) == Ok::<_, ErrorCode>(
                record@,
            ),
            Err(e) => get_outcome(ledger@, ctx.artist@, track_hash@) == Err::<RecordView, _>(e),
        },
{
    match find_proof_address(&ctx.artist, track_hash) {
        Ok(found) => ledger.load_record(&found.address),
        Err(e) => Err(e),
    }
}

/// A second registration of a pair fails with `DuplicateMint` and leaves the
/// storage exactly as the first left it, whatever the clock says by then and
/// whoever pays.
pub proof fn lemma_second_mint_is_duplicate(
    store: Map<Seq<u8>, Seq<u8>>,
    creator: Seq<u8>,
    track_hash: Seq<u8>,
    first_time: int,
    second_time: int,
)
    requires
        mint_outcome(store, creator, true, track_hash, first_time) is Ok,
    ensures
        ({
            let after = mint_store(store, creator, true, track_hash, first_time);
            &&& mint_outcome(after, creator, true, track_hash, second_time) == Err::<RecordView, _>(
                ErrorCode::DuplicateMint,
            )
            &&& mint_store(after, creator, true, track_hash, second_time) == after
        }),
{
}

/// A lookup after a successful registration returns the record that was
/// registered: the same creator, the same digest, and the time of the
/// registration.
pub proof fn lemma_get_after_mint(
    store: Map<Seq<u8>, Seq<u8>>,
    creator: Seq<u8>,
    track_hash: Seq<u8>,
    now: int,
)
    requires
        creator.len() == 32,
        -0x8000_0000_0000_0000 <= now < 0x8000_0000_0000_0000,
        mint_outcome(store, creator, true, track_hash, now) is Ok,
    ensures
        ({
            let after = mint_store(store, creator, true, track_hash, now);
            let record = RecordView { creator, content_hash: track_hash, timestamp: now };
            &&& mint_outcome(store, creator, true, track_hash, now) == Ok::<_, ErrorCode>(record)
            &&& get_outcome(after, creator, track_hash) == Ok::<_, ErrorCode>(record)
        }),
{
    let record = RecordView { creator, content_hash: track_hash, timestamp: now };
    lemma_decoding_of_encoding(record);
}

/// A registration never touches what is already stored: every address that
/// was allocated before is allocated after, with the same bytes, so every
/// lookup that found a record before finds the same record after.
pub proof fn lemma_mint_keeps_records(
    store: Map<Seq<u8>, Seq<u8>>,
    creator: Seq<u8>,
    authorized: bool,
    track_hash: Seq<u8>,
    now: int,
    other_creator: Seq<u8>,
    other_hash: Seq<u8>,
)
    ensures
        ({
            let after = mint_store(store, creator, authorized, track_hash, now);
            &&& forall|a: Seq<u8>| #[trigger]
                store.dom().contains(a) ==> after.dom().contains(a) && after[a] == store[a]
            &&& get_outcome(store, other_creator, other_hash) is Ok ==> get_outcome(
                after,
                other_creator,
                other_hash,
            ) == get_outcome(store, other_creator, other_hash)
        }),
{
}

/// A lookup of a pair at whose address nothing is allocated fails with
/// `ProofOfCreationNotFound`. In particular every lookup in the empty storage
/// does, for a pair that has an address.
pub proof fn lemma_get_of_unallocated(
    store: Map<Seq<u8>, Seq<u8>>,
    creator: Seq<u8>,
    track_hash: Seq<u8>,
)
    requires
        derived(creator, track_hash) is Some,
        !store.dom().contains(derived(creator, track_hash)->0.address),
    ensures
        get_outcome(store, creator, track_hash) == Err::<RecordView, _>(
            ErrorCode::ProofOfCreationNotFound,
        ),
        get_outcome(Map::empty(), creator, track_hash) == Err::<RecordView, _>(
            ErrorCode::ProofOfCreationNotFound,
        ),
{
}

} // verus!
