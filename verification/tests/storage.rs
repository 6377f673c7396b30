use timestamp_proof::error::ErrorCode;
use timestamp_proof::ledger::{read_record, AlreadyExists, Ledger};
use timestamp_proof::record::ProofOfCreation;

fn key(byte: u8) -> [u8; 32] {
    [byte; 32]
}

#[test]
fn new_ledger_is_empty() {
    let ledger = Ledger::new();
    assert_eq!(ledger.len(), 0);
    assert!(!ledger.contains(&key(0)));
    assert_eq!(ledger.read(&key(0)), None);
}

#[test]
fn create_if_absent_allocates_zero_bytes() {
    let mut ledger = Ledger::new();
    assert_eq!(ledger.create_if_absent(&key(1), 5), Ok(()));
    assert!(ledger.contains(&key(1)));
    assert_eq!(ledger.read(&key(1)), Some(&vec![0u8; 5]));
    assert_eq!(ledger.len(), 1);
    assert_eq!(ledger.create_if_absent(&key(2), 0), Ok(()));
    assert_eq!(ledger.read(&key(2)), Some(&vec![]));
    assert_eq!(ledger.len(), 2);
}

#[test]
fn create_if_absent_refuses_an_allocated_address() {
    let mut ledger = Ledger::new();
    assert_eq!(ledger.create_if_absent(&key(1), 5), Ok(()));
    let before = ledger.clone();
    assert_eq!(ledger.create_if_absent(&key(1), 9), Err(AlreadyExists));
    assert_eq!(ledger, before);
    assert_eq!(ledger.read(&key(1)), Some(&vec![0u8; 5]));
    assert_eq!(ledger.len(), 1);
}

#[test]
fn addresses_that_differ_in_one_byte_are_different() {
    let mut ledger = Ledger::new();
    let mut other = key(1);
    other[31] = 2;
    assert_eq!(ledger.create_if_absent(&key(1), 1), Ok(()));
    assert!(!ledger.contains(&other));
    assert_eq!(ledger.create_if_absent(&other, 2), Ok(()));
    assert_eq!(ledger.read(&key(1)), Some(&vec![0u8; 1]));
    assert_eq!(ledger.read(&other), Some(&vec![0u8; 2]));
}

#[test]
fn clone_is_a_storage_of_its_own() {
    let mut ledger = Ledger::new();
    assert_eq!(ledger.create_if_absent(&key(1), 3), Ok(()));
    let copy = ledger.clone();
    assert_eq!(copy, ledger);
    assert_eq!(ledger.create_if_absent(&key(2), 3), Ok(()));
    assert_ne!(copy, ledger);
    assert_eq!(copy.len(), 1);
    assert!(!copy.contains(&key(2)));
}

#[test]
fn store_record_writes_the_encoding() {
    let mut ledger = Ledger::new();
    let record = ProofOfCreation { artist: key(3), track_hash: key(4), timestamp: 1000 };
    assert_eq!(ledger.store_record(&key(9), &record), Ok(()));
    assert_eq!(ledger.read(&key(9)), Some(&record.encode()));
    assert_eq!(ledger.load_record(&key(9)), Ok(record));
    assert_eq!(ledger.len(), 1);
}

#[test]
fn store_record_refuses_an_allocated_address() {
    let mut ledger = Ledger::new();
    let first = ProofOfCreation { artist: key(3), track_hash: key(4), timestamp: 1000 };
    let second = ProofOfCreation { artist: key(5), track_hash: key(6), timestamp: 2000 };
    assert_eq!(ledger.store_record(&key(9), &first), Ok(()));
    let before = ledger.clone();
    assert_eq!(ledger.store_record(&key(9), &second), Err(ErrorCode::DuplicateMint));
    assert_eq!(ledger.store_record(&key(9), &first), Err(ErrorCode::DuplicateMint));
    assert_eq!(ledger, before);
    assert_eq!(ledger.load_record(&key(9)), Ok(first));
}

#[test]
fn store_record_keeps_the_other_records() {
    let mut ledger = Ledger::new();
    let first = ProofOfCreation { artist: key(3), track_hash: key(4), timestamp: 1000 };
    let second = ProofOfCreation { artist: key(5), track_hash: key(6), timestamp: -2000 };
    assert_eq!(ledger.store_record(&key(9), &first), Ok(()));
    assert_eq!(ledger.store_record(&key(8), &second), Ok(()));
    assert_eq!(ledger.load_record(&key(9)), Ok(first));
    assert_eq!(ledger.load_record(&key(8)), Ok(second));
    assert_eq!(ledger.len(), 2);
}

#[test]
fn load_record_of_an_unallocated_address() {
    let mut ledger = Ledger::new();
    assert_eq!(ledger.load_record(&key(1)), Err(ErrorCode::ProofOfCreationNotFound));
    let record = ProofOfCreation { artist: key(3), track_hash: key(4), timestamp: 1 };
    assert_eq!(ledger.store_record(&key(2), &record), Ok(()));
    assert_eq!(ledger.load_record(&key(1)), Err(ErrorCode::ProofOfCreationNotFound));
}

#[test]
fn load_record_of_bytes_that_are_no_record() {
    let mut ledger = Ledger::new();
    assert_eq!(ledger.create_if_absent(&key(1), 80), Ok(()));
    assert_eq!(ledger.load_record(&key(1)), Err(ErrorCode::MalformedRecord));
    assert_eq!(ledger.create_if_absent(&key(2), 10), Ok(()));
    assert_eq!(ledger.load_record(&key(2)), Err(ErrorCode::MalformedRecord));
    assert_eq!(ledger.create_if_absent(&key(3), 0), Ok(()));
    assert_eq!(ledger.load_record(&key(3)), Err(ErrorCode::MalformedRecord));
}

#[test]
fn read_record_of_nothing() {
    assert_eq!(read_record(None), Err(ErrorCode::ProofOfCreationNotFound));
}

#[test]
fn read_record_of_stored_bytes() {
    let record = ProofOfCreation { artist: key(3), track_hash: key(4), timestamp: -77 };
    let bytes = record.encode();
    assert_eq!(read_record(Some(&bytes)), Ok(record));
    assert_eq!(read_record(Some(&bytes[..79])), Err(ErrorCode::MalformedRecord));
    assert_eq!(read_record(Some(&[])), Err(ErrorCode::MalformedRecord));
    assert_eq!(read_record(Some(&[0u8; 80])), Err(ErrorCode::MalformedRecord));
}

#[test]
fn equality_ignores_the_order_of_allocation() {
    let mut first = Ledger::new();
    let mut second = Ledger::new();
    assert_eq!(first, second);
    assert_eq!(first.create_if_absent(&key(1), 3), Ok(()));
    assert_ne!(first, second);
    assert_eq!(first.create_if_absent(&key(2), 4), Ok(()));
    assert_eq!(second.create_if_absent(&key(2), 4), Ok(()));
    assert_ne!(first, second);
    assert_eq!(second.create_if_absent(&key(1), 3), Ok(()));
    assert_eq!(first, second);
    assert_eq!(second, first);
}

#[test]
fn equality_compares_the_stored_bytes() {
    let mut first = Ledger::new();
    let mut second = Ledger::new();
    let record = ProofOfCreation { artist: key(3), track_hash: key(4), timestamp: 1 };
    let later = ProofOfCreation { artist: key(3), track_hash: key(4), timestamp: 2 };
    assert_eq!(first.store_record(&key(9), &record), Ok(()));
    assert_eq!(second.store_record(&key(9), &later), Ok(()));
    assert_ne!(first, second);
    let mut sized = Ledger::new();
    let mut other = Ledger::new();
    assert_eq!(sized.create_if_absent(&key(1), 3), Ok(()));
    assert_eq!(other.create_if_absent(&key(1), 4), Ok(()));
    assert_ne!(sized, other);
    let mut elsewhere = Ledger::new();
    assert_eq!(elsewhere.create_if_absent(&key(2), 3), Ok(()));
    assert_ne!(sized, elsewhere);
}
