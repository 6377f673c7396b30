use anchor_lang::prelude::{borsh, Pubkey};
use sha2::{Digest, Sha256};
use timestamp_proof::error::ErrorCode;
use timestamp_proof::record::{ProofOfCreation, DISCRIMINATOR, DISCRIMINATOR_LEN};

fn sample(timestamp: i64) -> ProofOfCreation {
    let mut artist = [0u8; 32];
    let mut track_hash = [0u8; 32];
    for i in 0..32 {
        artist[i] = i as u8;
        track_hash[i] = 200 - i as u8;
    }
    ProofOfCreation { artist, track_hash, timestamp }
}

#[test]
fn record_length_is_eighty_bytes() {
    assert_eq!(ProofOfCreation::LEN, 80);
    assert_eq!(DISCRIMINATOR_LEN, 8);
    assert_eq!(sample(0).encode().len(), 80);
}

#[test]
fn discriminator_is_the_digest_of_the_account_name() {
    let digest = Sha256::digest(b"account:ProofOfCreation");
    assert_eq!(&digest[..8], &DISCRIMINATOR[..]);
}

#[test]
fn encoding_lays_the_fields_out_in_order() {
    let record = sample(1000);
    let bytes = record.encode();
    assert_eq!(&bytes[0..8], &[176, 199, 228, 135, 174, 198, 34, 137]);
    assert_eq!(&bytes[8..40], &record.artist[..]);
    assert_eq!(&bytes[40..72], &record.track_hash[..]);
    assert_eq!(&bytes[72..80], &[0xe8, 0x03, 0, 0, 0, 0, 0, 0]);
}

#[test]
fn timestamp_is_little_endian_twos_complement() {
    assert_eq!(&sample(0).encode()[72..], &[0u8; 8]);
    assert_eq!(&sample(1).encode()[72..], &[1, 0, 0, 0, 0, 0, 0, 0]);
    assert_eq!(&sample(256).encode()[72..], &[0, 1, 0, 0, 0, 0, 0, 0]);
    assert_eq!(&sample(-1).encode()[72..], &[0xff; 8]);
    assert_eq!(&sample(-2).encode()[72..], &[0xfe, 0xff, 0xff, 0xff, 0xff, 0xff, 0xff, 0xff]);
    assert_eq!(&sample(i64::MAX).encode()[72..], &[0xff, 0xff, 0xff, 0xff, 0xff, 0xff, 0xff, 0x7f]);
    assert_eq!(&sample(i64::MIN).encode()[72..], &[0, 0, 0, 0, 0, 0, 0, 0x80]);
    assert_eq!(
        &sample(0x0102_0304_0506_0708).encode()[72..],
        &[8, 7, 6, 5, 4, 3, 2, 1]
    );
}

#[test]
fn timestamp_bytes_agree_with_the_standard_library() {
    let stamps: [i64; 9] = [
        0,
        1,
        -1,
        1000,
        -1000,
        1_700_000_000,
        i64::MAX,
        i64::MIN,
        -0x0123_4567_89ab_cdef,
    ];
    for t in stamps {
        assert_eq!(&sample(t).encode()[72..], &t.to_le_bytes()[..]);
    }
}

#[test]
fn payload_agrees_with_borsh() {
    for t in [0i64, 1000, -7, i64::MIN, i64::MAX] {
        let record = sample(t);
        let fields = (Pubkey::new_from_array(record.artist), record.track_hash, record.timestamp);
        let payload = borsh::to_vec(&fields).unwrap();
        assert_eq!(payload.len(), 72);
        assert_eq!(&record.encode()[8..], &payload[..]);
    }
}

#[test]
fn decode_reads_back_what_encode_wrote() {
    for t in [0i64, 1, -1, 1000, 1_700_000_000, i64::MIN, i64::MAX] {
        let record = sample(t);
        assert_eq!(ProofOfCreation::decode(&record.encode()), Ok(record));
    }
}

#[test]
fn encode_writes_back_what_decode_read() {
    let mut bytes = vec![0u8; 80];
    bytes[..8].copy_from_slice(&DISCRIMINATOR);
    for i in 8..80 {
        bytes[i] = (i * 7 + 3) as u8;
    }
    let record = ProofOfCreation::decode(&bytes).unwrap();
    assert_eq!(record.encode(), bytes);
}

#[test]
fn different_records_have_different_encodings() {
    let base = sample(5);
    let mut other_artist = base;
    other_artist.artist[31] ^= 1;
    let mut other_hash = base;
    other_hash.track_hash[0] ^= 0x80;
    let other_time = sample(6);
    let all = [base, other_artist, other_hash, other_time];
    for i in 0..all.len() {
        for j in 0..all.len() {
            assert_eq!(all[i].encode() == all[j].encode(), i == j);
        }
    }
}

#[test]
fn decode_rejects_a_wrong_length() {
    let bytes = sample(9).encode();
    assert_eq!(ProofOfCreation::decode(&bytes[..79]), Err(ErrorCode::MalformedRecord));
    let mut longer = bytes.clone();
    longer.push(0);
    assert_eq!(ProofOfCreation::decode(&longer), Err(ErrorCode::MalformedRecord));
    assert_eq!(ProofOfCreation::decode(&[]), Err(ErrorCode::MalformedRecord));
    assert_eq!(ProofOfCreation::decode(&bytes[8..]), Err(ErrorCode::MalformedRecord));
}

#[test]
fn decode_rejects_a_wrong_discriminator() {
    let bytes = sample(9).encode();
    for i in 0..8 {
        let mut damaged = bytes.clone();
        damaged[i] ^= 1;
        assert_eq!(ProofOfCreation::decode(&damaged), Err(ErrorCode::MalformedRecord));
    }
    assert_eq!(ProofOfCreation::decode(&[0u8; 80]), Err(ErrorCode::MalformedRecord));
}

#[test]
fn decode_accepts_any_payload_behind_the_discriminator() {
    let mut bytes = vec![0xabu8; 80];
    bytes[..8].copy_from_slice(&DISCRIMINATOR);
    let record = ProofOfCreation::decode(&bytes).unwrap();
    assert_eq!(record.artist, [0xab; 32]);
    assert_eq!(record.track_hash, [0xab; 32]);
    assert_eq!(record.timestamp, i64::from_le_bytes([0xab; 8]));
}
