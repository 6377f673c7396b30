//! The storage that holds the records: a set of accounts, each at an address
//! of its own.
//!
//! An account is allocated once, at an address that is not yet in use, and is
//! never moved or removed. The only way to allocate is `create_if_absent`,
//! which either allocates or leaves the storage exactly as it was.

use vstd::prelude::*;
use vstd::set_lib::lemma_subset_equality;
use vstd::std_specs::cmp::PartialEqSpecImpl;
use crate::bytes::same_bytes;
use crate::error::ErrorCode;
use crate::record::{decoding, encoding, is_encoding, ProofOfCreation, RecordView};

verus! {

/// The answer of `create_if_absent` where the address is already allocated.
#[derive(Clone, Copy, Debug, PartialEq, Eq, Structural, Hash)]
pub struct AlreadyExists;

/// One allocated account: its address and the bytes stored there.
#[derive(Debug)]
struct Account {
    address: [u8; 32],
    data: Vec<u8>,
}

/// The storage: every allocated address with the bytes stored at it.
///
/// Two storages are equal when they hold the same bytes at the same
/// addresses, in whatever order the addresses were allocated.
#[derive(Debug)]
pub struct Ledger {
    accounts: Vec<Account>,
}

/// The map from address to stored bytes that a sequence of accounts stands for.
/// Where an address occurs twice, the later account counts.
spec fn store_of(accounts: Seq<Account>) -> Map<Seq<u8>, Seq<u8>>
    decreases accounts.len(),
{
    if accounts.len() == 0 {
        Map::empty()
    } else {
        store_of(accounts.drop_last()).insert(accounts.last().address@, accounts.last().data@)
    }
}

/// No address occurs twice among the accounts.
spec fn distinct(accounts: Seq<Account>) -> bool {
    forall|i: int, j: int|
        0 <= i < j < accounts.len() ==> accounts[i].address@ != accounts[j].address@
}

/// `size` bytes, all zero: the content of an account right after allocation.
pub open spec fn zeroed(size: nat) -> Seq<u8> {
    Seq::new(size, |i: int| 0u8)
}

/// Without its last account, a sequence still repeats no address.
proof fn lemma_front_is_distinct(accounts: Seq<Account>)
    requires
        distinct(accounts),
        accounts.len() > 0,
    ensures
        distinct(accounts.drop_last()),
{
    let front = accounts.drop_last();
    assert forall|a: int, b: int| 0 <= a < b < front.len() implies front[a].address@
        != front[b].address@ by {
        assert(accounts[a].address@ != accounts[b].address@);
    }
}

/// An address is in the map exactly when some account has it.
proof fn lemma_store_domain(accounts: Seq<Account>, address: Seq<u8>)
    ensures
        store_of(accounts).dom().contains(address) <==> exists|i: int|
            0 <= i < accounts.len() && #[trigger] accounts[i].address@ == address,
    decreases accounts.len(),
{
    if accounts.len() > 0 {
        let front = accounts.drop_last();
        lemma_store_domain(front, address);
        if store_of(accounts).dom().contains(address) {
            if accounts.last().address@ != address {
                let i = choose|i: int| 0 <= i < front.len() && #[trigger] front[i].address@ == address;
                assert(accounts[i].address@ == address);
            }
        } else {
            assert forall|i: int| 0 <= i < accounts.len() implies #[trigger] accounts[i].address@
                != address by {
                if i < front.len() {
                    assert(front[i].address@ == accounts[i].address@);
                }
            }
        }
    }
}

/// Where no address occurs twice, the map holds each account's bytes at its address.
proof fn lemma_store_value(accounts: Seq<Account>, i: int)
    requires
        distinct(accounts),
        0 <= i < accounts.len(),
    ensures
        store_of(accounts).dom().contains(accounts[i].address@),
        store_of(accounts)[accounts[i].address@] == accounts[i].data@,
    decreases accounts.len(),
{
    if i < accounts.len() - 1 {
        lemma_front_is_distinct(accounts);
        lemma_store_value(accounts.drop_last(), i);
        assert(accounts[i].address@ != accounts.last().address@);
    }
}

/// Replacing the bytes of one account replaces them in the map.
proof fn lemma_store_update(accounts: Seq<Account>, i: int, account: Account)
    requires
        distinct(accounts),
        0 <= i < accounts.len(),
        account.address@ == accounts[i].address@,
    ensures
        distinct(accounts.update(i, account)),
        store_of(accounts.update(i, account)) == store_of(accounts).insert(
            account.address@,
            account.data@,
        ),
    decreases accounts.len(),
{
    let after = accounts.update(i, account);
    let front = accounts.drop_last();
    assert forall|a: int, b: int| 0 <= a < b < after.len() implies after[a].address@
        != after[b].address@ by {
        assert(accounts[a].address@ != accounts[b].address@);
    }
    if i == accounts.len() - 1 {
        assert(after.drop_last() =~= front);
    } else {
        lemma_front_is_distinct(accounts);
        lemma_store_update(front, i, account);
        assert(after.drop_last() =~= front.update(i, account));
        assert(accounts[i].address@ != accounts.last().address@);
    }
    assert(store_of(after) =~= store_of(accounts).insert(account.address@, account.data@));
}

/// The map of a sequence of accounts is finite, and where no address occurs
/// twice it has as many entries as there are accounts.
proof fn lemma_store_size(accounts: Seq<Account>)
    ensures
        store_of(accounts).dom().finite(),
        distinct(accounts) ==> store_of(accounts).dom().len() == accounts.len(),
    decreases accounts.len(),
{
    if accounts.len() > 0 {
        let front = accounts.drop_last();
        let last = accounts.last().address@;
        lemma_store_size(front);
        if distinct(accounts) {
            lemma_front_is_distinct(accounts);
            lemma_store_domain(front, last);
            assert(!store_of(front).dom().contains(last)) by {
                assert forall|i: int| 0 <= i < front.len() implies #[trigger] front[i].address@
                    != last by {
                    assert(accounts[i].address@ != accounts[accounts.len() - 1].address@);
                }
            }
        }
    }
}

/// Two sequences of accounts that agree, account by account, in address and
/// bytes stand for the same map, and neither repeats an address if the other
/// does not.
proof fn lemma_store_of_copy(accounts: Seq<Account>, copy: Seq<Account>)
    requires
        copy.len() == accounts.len(),
        forall|k: int|
            0 <= k < accounts.len() ==> copy[k].address@ == accounts[k].address@ && copy[k].data@
                == accounts[k].data@,
    ensures
        store_of(copy) == store_of(accounts),
        distinct(accounts) ==> distinct(copy),
    decreases accounts.len(),
{
    if accounts.len() > 0 {
        lemma_store_of_copy(accounts.drop_last(), copy.drop_last());
    }
}

impl View for Ledger {
    type V = Map<Seq<u8>, Seq<u8>>;

    /// The stored bytes of every allocated address.
    closed spec fn view(&self) -> Map<Seq<u8>, Seq<u8>> {
        store_of(self.accounts@)
    }
}

impl Clone for Ledger {
    /// A storage of its own that holds the same bytes at the same addresses.
    fn clone(&self) -> (copy: Ledger)
        ensures
            copy@ == self@,
    {
        let mut accounts: Vec<Account> = Vec::new();
        let mut i: usize = 0;
        while i < self.accounts.len()
            invariant
                i <= self.accounts@.len(),
                accounts@.len() == i,
                forall|k: int|
                    0 <= k < i ==> accounts@[k].address@ == self.accounts@[k].address@
                        && accounts@[k].data@ == self.accounts@[k].data@,
            decreases self.accounts@.len() - i,
        {
            let account = &self.accounts[i];
            let data: Vec<u8> = account.data.clone();
            accounts.push(Account { address: account.address, data });
            i = i + 1;
        }
        proof {
            use_type_invariant(self);
            lemma_store_of_copy(self.accounts@, accounts@);
        }
        Ledger { accounts }
    }
}

impl PartialEq for Ledger {
    /// Whether both storages hold the same bytes at the same addresses.
    fn eq(&self, other: &Ledger) -> (same: bool) {
        proof {
            use_type_invariant(self);
            use_type_invariant(other);
            lemma_store_size(self.accounts@);
            lemma_store_size(other.accounts@);
        }
        if self.accounts.len() != other.accounts.len() {
            return false;
        }
        let mut i: usize = 0;
        while i < self.accounts.len()
            invariant
                i <= self.accounts@.len(),
                distinct(self.accounts@),
                forall|k: int|
                    0 <= k < i ==> other@.dom().contains(
                        (#[trigger] self.accounts@[k]).address@,
                    ) && other@[self.accounts@[k].address@] == self.accounts@[k].data@,
            decreases self.accounts@.len() - i,
        {
            let account = &self.accounts[i];
            proof {
                lemma_store_value(self.accounts@, i as int);
            }
            match other.read(&account.address) {
                None => {
                    return false;
                },
                Some(data) => {
                    if !same_bytes(account.data.as_slice(), data.as_slice()) {
                        return false;
                    }
                },
            }
            i = i + 1;
        }
        proof {
            assert forall|a: Seq<u8>| #[trigger]
                self@.dom().contains(a) implies other@.dom().contains(a) && other@[a]
                == self@[a] by {
                lemma_store_domain(self.accounts@, a);
                let k = choose|k: int|
                    0 <= k < self.accounts@.len() && #[trigger] self.accounts@[k].address@ == a;
                lemma_store_value(self.accounts@, k);
            }
            assert(self@.dom().subset_of(other@.dom()));
            lemma_subset_equality(self@.dom(), other@.dom());
            assert(self@ =~= other@);
        }
        true
    }
}

impl PartialEqSpecImpl for Ledger {
    open spec fn obeys_eq_spec() -> bool {
        true
    }

    open spec fn eq_spec(&self, other: &Ledger) -> bool {
        self@ == other@
    }
}

impl Eq for Ledger {}

impl Ledger {
    /// No address is allocated twice.
    #[verifier::type_invariant]
    spec fn inv(&self) -> bool {
        distinct(self.accounts@)
    }

    /// A storage in which nothing is allocated.
    pub fn new() -> (ledger: Ledger)
        ensures
            ledger@ == Map::<Seq<u8>, Seq<u8>>::empty(),
    {
        Ledger { accounts: Vec::new() }
    }

    /// Where the account at `address` stands among the accounts, if it is allocated.
    fn position(&self, address: &[u8; 32]) -> (r: Option<usize>)
        ensures
            match r {
                Some(i) => i < self.accounts@.len() && self.accounts@[i as int].address@
                    == address@,
                None => !self@.dom().contains(address@),
            },
    {
        let mut i: usize = 0;
        while i < self.accounts.len()
            invariant
                i <= self.accounts@.len(),
                forall|k: int| 0 <= k < i ==> (#[trigger] self.accounts@[k]).address@ != address@,
            decreases self.accounts@.len() - i,
        {
            if same_bytes(self.accounts[i].address.as_slice(), address.as_slice()) {
                return Some(i);
            }
            i = i + 1;
        }
        proof {
            lemma_store_domain(self.accounts@, address@);
        }
        None
    }

    /// Whether `address` is allocated.
    pub fn contains(&self, address: &[u8; 32]) -> (allocated: bool)
        ensures
            allocated == self@.dom().contains(address@),
    {
        match self.position(address) {
            Some(i) => {
                proof {
                    lemma_store_domain(self.accounts@, address@);
                }
                true
            },
            None => false,
        }
    }

    /// The bytes stored at `address`, or `None` where it is not allocated.
    pub fn read(&self, address: &[u8; 32]) -> (r: Option<&Vec<u8>>)
        ensures
            match r {
                Some(data) => self@.dom().contains(address@) && data@ == self@[address@],
                None => !self@.dom().contains(address@),
            },
    {
        match self.position(address) {
            Some(i) => {
                proof {
                    use_type_invariant(self);
                    lemma_store_value(self.accounts@, i as int);
                }
                Some(&self.accounts[i].data)
            },
            None => None,
        }
    }

    /// The number of allocated addresses.
    pub fn len(&self) -> (n: usize)
        ensures
            self@.dom().finite(),
            n == self@.dom().len(),
    {
        proof {
            use_type_invariant(self);
            lemma_store_size(self.accounts@);
        }
        self.accounts.len()
    }

    /// Allocates `size` zero bytes at `address`, unless the address is
    /// already allocated.
    ///
    /// On `Err(AlreadyExists)` the storage is exactly as it was.
    pub fn create_if_absent(&mut self, address: &[u8; 32], size: usize) -> (r: Result<
        (),
        AlreadyExists,
    >)
        ensures
            r is Err <==> old(self)@.dom().contains(address@),
            r is Err ==> final(self)@ == old(self)@,
            r is Ok ==> final(self)@ == old(self)@.insert(address@, zeroed(size as nat)),
    {
        if self.contains(address) {
            return Err(AlreadyExists);
        }
        let mut data: Vec<u8> = Vec::with_capacity(size);
        let mut i: usize = 0;
        while i < size
            invariant
                i <= size,
                data@.len() == i,
                forall|k: int| 0 <= k < i ==> data@[k] == 0u8,
            decreases size - i,
        {
            data.push(0u8);
            i = i + 1;
        }
        assert(data@ =~= zeroed(size as nat));
        let account = Account { address: *address, data };
        proof {
            use_type_invariant(&*self);
            lemma_store_domain(self.accounts@, address@);
        }
        let mut accounts: Vec<Account> = Vec::new();
        core::mem::swap(&mut self.accounts, &mut accounts);
        accounts.push(account);
        proof {
            assert(accounts@.drop_last() =~= old(self).accounts@);
            assert(distinct(accounts@));
        }
        core::mem::swap(&mut self.accounts, &mut accounts);
        Ok(())
    }

    /// Replaces the bytes stored at the allocated `address` by `data`.
    fn write(&mut self, address: &[u8; 32], data: Vec<u8>)
        requires
            old(self)@.dom().contains(address@),
        ensures
            final(self)@ == old(self)@.insert(address@, data@),
    {
        match self.position(address) {
            Some(i) => {
                let account = Account { address: *address, data };
                proof {
                    use_type_invariant(&*self);
                    lemma_store_update(self.accounts@, i as int, account);
                }
                let mut accounts: Vec<Account> = Vec::new();
                core::mem::swap(&mut self.accounts, &mut accounts);
                accounts.set(i, account);
                core::mem::swap(&mut self.accounts, &mut accounts);
            },
            None => {},
        }
    }

    /// Stores `record` at `address`, unless the address is already allocated.
    ///
    /// Allocates the address with the size of a stored record and writes the
    /// record's encoding there. Fails with `DuplicateMint` exactly when the
    /// address is already allocated, and then leaves the storage as it was.
    pub fn store_record(&mut self, address: &[u8; 32], record: &ProofOfCreation) -> (r: Result<
        (),
        ErrorCode,
    >)
        ensures
            r == stored_outcome(old(self)@, address@),
            final(self)@ == stored(old(self)@, address@, record@),
    {
        match self.create_if_absent(address, ProofOfCreation::LEN) {
            Err(AlreadyExists) => Err(ErrorCode::DuplicateMint),
            Ok(()) => {
                self.write(address, record.encode());
                Ok(())
            },
        }
    }

    /// Reads the record stored at `address`.
    ///
    /// Fails with `ProofOfCreationNotFound` where the address is not
    /// allocated, and with `MalformedRecord` where the bytes stored there are
    /// not the encoding of a record.
    pub fn load_record(&self, address: &[u8; 32]) -> (r: Result<ProofOfCreation, ErrorCode>)
        ensures
            match r {
                Ok(record) => loaded(self@, address@) == Ok::<_, ErrorCode>(record@),
                Err(e) => loaded(self@, address@) == Err::<RecordView, _>(e),
            },
    {
        match self.read(address) {
            None => read_record(None),
            Some(data) => read_record(Some(data.as_slice())),
        }
    }
}

/// What a lookup returns for `stored`, the bytes found at the pair's address,
/// or `None` where nothing is allocated there.
pub open spec fn record_of(stored: Option<Seq<u8>>) -> Result<RecordView, ErrorCode> {
    match stored {
        None => Err(ErrorCode::ProofOfCreationNotFound),
        Some(bytes) => if is_encoding(bytes) {
            Ok(decoding(bytes))
        } else {
            Err(ErrorCode::MalformedRecord)
        },
    }
}

/// Reads the record from what the storage holds at the pair's address.
///
/// Fails with `ProofOfCreationNotFound` on `None`, and with
/// `MalformedRecord` on bytes that are not the encoding of a record. A host
/// that owns the storage hands in what it found at the address.
pub fn read_record(stored: Option<&[u8]>) -> (r: Result<ProofOfCreation, ErrorCode>)
    ensures
        match r {
            Ok(record) => record_of(
                match stored {
                    Some(bytes) => Some(bytes@),
                    None => None,
                },
            ) == Ok::<_, ErrorCode>(record@),
            Err(e) => record_of(
                match stored {
                    Some(bytes) => Some(bytes@),
                    None => None,
                },
            ) == Err::<RecordView, _>(e),
        },
{
    match stored {
        None => Err(ErrorCode::ProofOfCreationNotFound),
        Some(bytes) => ProofOfCreation::decode(bytes),
    }
}

/// Whether storing a record at `address` succeeds in the storage `store`.
pub open spec fn stored_outcome(store: Map<Seq<u8>, Seq<u8>>, address: Seq<u8>) -> Result<
    (),
    ErrorCode,
> {
    if store.dom().contains(address) {
        Err(ErrorCode::DuplicateMint)
    } else {
        Ok(())
    }
}

/// The storage after an attempt to store `record` at `address` in `store`.
pub open spec fn stored(
    store: Map<Seq<u8>, Seq<u8>>,
    address: Seq<u8>,
    record: RecordView,
) -> Map<Seq<u8>, Seq<u8>> {
    if store.dom().contains(address) {
        store
    } else {
        store.insert(address, encoding(record))
    }
}

/// What reading the record at `address` gives in the storage `store`.
pub open spec fn loaded(store: Map<Seq<u8>, Seq<u8>>, address: Seq<u8>) -> Result<
    RecordView,
    ErrorCode,
> {
    record_of(
        if store.dom().contains(address) {
            Some(store[address])
        } else {
            None
        },
    )
}

} // verus!
