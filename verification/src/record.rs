//! The proof-of-creation record and its fixed binary layout.
//!
//! A stored record is 80 bytes: an 8-byte type discriminator, the 32 bytes of
//! the creator's identity, the 32 bytes of the content digest, and the
//! timestamp as 8 bytes, two's complement, least significant byte first.

use vstd::prelude::*;
use crate::bytes::take_array;
use crate::error::ErrorCode;

verus! {

/// Number of bytes of the type discriminator that opens a stored record.
pub const DISCRIMINATOR_LEN: usize = 8;

/// The type discriminator of a stored record: the first eight bytes of the
/// SHA-256 digest of the text `account:ProofOfCreation`.
pub const DISCRIMINATOR: [u8; 8] = [176, 199, 228, 135, 174, 198, 34, 137];

/// The mathematical value of a record.
pub struct RecordView {
    pub creator: Seq<u8>,
    pub content_hash: Seq<u8>,
    pub timestamp: int,
}

impl RecordView {
    /// Both identities are 32 bytes long and the timestamp fits in 64 signed bits.
    pub open spec fn wf(self) -> bool {
        &&& self.creator.len() == 32
        &&& self.content_hash.len() == 32
        &&& -0x8000_0000_0000_0000 <= self.timestamp < 0x8000_0000_0000_0000
    }
}

/// A claim that `artist` held the content with digest `track_hash` at the
/// moment `timestamp`, in seconds since the epoch.
#[derive(Clone, Copy, Debug, PartialEq, Eq, Hash)]
pub struct ProofOfCreation {
    pub artist: [u8; 32],
    pub track_hash: [u8; 32],
    pub timestamp: i64,
}

impl View for ProofOfCreation {
    type V = RecordView;

    open spec fn view(&self) -> RecordView {
        RecordView {
            creator: self.artist@,
            content_hash: self.track_hash@,
            timestamp: self.timestamp as int,
        }
    }
}

/// The discriminator as a sequence of bytes.
pub open spec fn discriminator() -> Seq<u8> {
    seq![176u8, 199u8, 228u8, 135u8, 174u8, 198u8, 34u8, 137u8]
}

/// The number below 2^64 that has the same 64 bits as the signed `t`.
pub open spec fn unsigned_of(t: int) -> int {
    if t >= 0 {
        t
    } else {
        t + 0x1_0000_0000_0000_0000
    }
}

/// The signed number that has the same 64 bits as `u`, for `u` below 2^64.
pub open spec fn signed_of(u: int) -> int {
    if u < 0x8000_0000_0000_0000 {
        u
    } else {
        u - 0x1_0000_0000_0000_0000
    }
}

/// The eight base-256 digits of `u`, least significant first.
pub open spec fn le_digits(u: int) -> Seq<u8> {
    seq![
        (u % 256) as u8,
        (u / 0x100 % 256) as u8,
        (u / 0x1_0000 % 256) as u8,
        (u / 0x100_0000 % 256) as u8,
        (u / 0x1_0000_0000 % 256) as u8,
        (u / 0x100_0000_0000 % 256) as u8,
        (u / 0x1_0000_0000_0000 % 256) as u8,
        (u / 0x100_0000_0000_0000 % 256) as u8,
    ]
}

/// The number whose base-256 digits, least significant first, are `s[0..8]`.
pub open spec fn le_value(s: Seq<u8>) -> int {
    s[0] + s[1] * 0x100 + s[2] * 0x1_0000 + s[3] * 0x100_0000 + s[4] * 0x1_0000_0000 + s[5]
        * 0x100_0000_0000 + s[6] * 0x1_0000_0000_0000 + s[7] * 0x100_0000_0000_0000
}

/// The eight bytes that store the timestamp `t`.
pub open spec fn timestamp_bytes(t: int) -> Seq<u8> {
    le_digits(unsigned_of(t))
}

/// The timestamp that the eight bytes `s` store.
pub open spec fn timestamp_value(s: Seq<u8>) -> int {
    signed_of(le_value(s))
}

/// The bytes that store the record `r`.
pub open spec fn encoding(r: RecordView) -> Seq<u8> {
    discriminator() + r.creator + r.content_hash + timestamp_bytes(r.timestamp)
}

/// `bytes` has the length of a stored record and opens with its discriminator.
pub open spec fn is_encoding(bytes: Seq<u8>) -> bool {
    &&& bytes.len() == 80
    &&& bytes.subrange(0, 8) == discriminator()
}

/// The record that `bytes` store, where `is_encoding(bytes)`.
pub open spec fn decoding(bytes: Seq<u8>) -> RecordView {
    RecordView {
        creator: bytes.subrange(8, 40),
        content_hash: bytes.subrange(40, 72),
        timestamp: timestamp_value(bytes.subrange(72, 80)),
    }
}

/// Dividing by 256 once more is dividing by a divisor 256 times as large.
proof fn lemma_quotient_step(u: int, d: int)
    requires
        0 <= u,
        0 < d,
    ensures
        u / (256 * d) == (u / d) / 256,
{
    vstd::arithmetic::div_mod::lemma_div_denominator(u, d, 256);
}

/// The successive quotients of `u` by 256 are its quotients by the powers of 256.
proof fn lemma_quotients(u: int)
    requires
        0 <= u,
    ensures
        u / 0x1_0000 == (u / 0x100) / 256,
        u / 0x100_0000 == (u / 0x1_0000) / 256,
        u / 0x1_0000_0000 == (u / 0x100_0000) / 256,
        u / 0x100_0000_0000 == (u / 0x1_0000_0000) / 256,
        u / 0x1_0000_0000_0000 == (u / 0x100_0000_0000) / 256,
        u / 0x100_0000_0000_0000 == (u / 0x1_0000_0000_0000) / 256,
        u / 0x1_0000_0000_0000_0000 == (u / 0x100_0000_0000_0000) / 256,
{
    lemma_quotient_step(u, 0x100);
    lemma_quotient_step(u, 0x1_0000);
    lemma_quotient_step(u, 0x100_0000);
    lemma_quotient_step(u, 0x1_0000_0000);
    lemma_quotient_step(u, 0x100_0000_0000);
    lemma_quotient_step(u, 0x1_0000_0000_0000);
    lemma_quotient_step(u, 0x100_0000_0000_0000);
}

/// Every number below 2^64 is the value of its own eight digits.
pub proof fn lemma_value_of_digits(u: int)
    requires
        0 <= u < 0x1_0000_0000_0000_0000,
    ensures
        le_digits(u).len() == 8,
        le_value(le_digits(u)) == u,
{
    lemma_quotients(u);
    let q1 = u / 0x100;
    let q2 = u / 0x1_0000;
    let q3 = u / 0x100_0000;
    let q4 = u / 0x1_0000_0000;
    let q5 = u / 0x100_0000_0000;
    let q6 = u / 0x1_0000_0000_0000;
    let q7 = u / 0x100_0000_0000_0000;
    assert(u == 256 * q1 + u % 256);
    assert(q1 == 256 * q2 + q1 % 256);
    assert(q2 == 256 * q3 + q2 % 256);
    assert(q3 == 256 * q4 + q3 % 256);
    assert(q4 == 256 * q5 + q4 % 256);
    assert(q5 == 256 * q6 + q5 % 256);
    assert(q6 == 256 * q7 + q6 % 256);
    assert(q7 == q7 % 256);
}

/// Eight bytes are the digits of their own value, which is below 2^64.
pub proof fn lemma_digits_of_value(s: Seq<u8>)
    requires
        s.len() == 8,
    ensures
        0 <= le_value(s) < 0x1_0000_0000_0000_0000,
        le_digits(le_value(s)) == s,
{
    let u = le_value(s);
    lemma_quotients(u);
    let t7 = s[7] as int;
    let t6 = s[6] + 256 * t7;
    let t5 = s[5] + 256 * t6;
    let t4 = s[4] + 256 * t5;
    let t3 = s[3] + 256 * t4;
    let t2 = s[2] + 256 * t3;
    let t1 = s[1] + 256 * t2;
    assert(u == s[0] + 256 * t1);
    assert(u / 0x100 == t1);
    assert(t1 / 256 == t2);
    assert(t2 / 256 == t3);
    assert(t3 / 256 == t4);
    assert(t4 / 256 == t5);
    assert(t5 / 256 == t6);
    assert(t6 / 256 == t7);
    assert(le_digits(u) =~= s);
}

/// A record is read back from its own encoding.
pub proof fn lemma_decoding_of_encoding(r: RecordView)
    requires
        r.wf(),
    ensures
        encoding(r).len() == 80,
        is_encoding(encoding(r)),
        decoding(encoding(r)) == r,
{
    let bytes = encoding(r);
    let stamp = timestamp_bytes(r.timestamp);
    lemma_value_of_digits(unsigned_of(r.timestamp));
    assert(bytes.subrange(0, 8) =~= discriminator());
    assert(bytes.subrange(8, 40) =~= r.creator);
    assert(bytes.subrange(40, 72) =~= r.content_hash);
    assert(bytes.subrange(72, 80) =~= stamp);
}

/// Bytes that hold a record are the encoding of the record they hold.
pub proof fn lemma_encoding_of_decoding(bytes: Seq<u8>)
    requires
        is_encoding(bytes),
    ensures
        decoding(bytes).wf(),
        encoding(decoding(bytes)) == bytes,
{
    lemma_digits_of_value(bytes.subrange(72, 80));
    assert(encoding(decoding(bytes)) =~= bytes);
}

/// No two records share an encoding.
pub proof fn lemma_encoding_injective(r1: RecordView, r2: RecordView)
    requires
        r1.wf(),
        r2.wf(),
        encoding(r1) == encoding(r2),
    ensures
        r1 == r2,
{
    lemma_decoding_of_encoding(r1);
    lemma_decoding_of_encoding(r2);
}

/// The 64 bits of `t`, read as an unsigned number.
fn to_unsigned(t: i64) -> (u: u64)
    ensures
        u == unsigned_of(t as int),
{
    if t >= 0 {
        t as u64
    } else {
        let above_min: i64 = t - i64::MIN;
        above_min as u64 + 0x8000_0000_0000_0000u64
    }
}

/// The 64 bits of `u`, read as a signed number.
fn to_signed(u: u64) -> (t: i64)
    ensures
        t == signed_of(u as int),
{
    if u < 0x8000_0000_0000_0000u64 {
        u as i64
    } else {
        let above_min: u64 = u - 0x8000_0000_0000_0000u64;
        above_min as i64 + i64::MIN
    }
}

impl ProofOfCreation {
    /// Number of bytes of a stored record: the discriminator, two identities
    /// of 32 bytes, and the timestamp.
    pub const LEN: usize = 8 + 32 + 32 + 8;

    /// The bytes that store this record.
    pub fn encode(&self) -> (out: Vec<u8>)
        ensures
            out@ == encoding(self@),
            out@.len() == Self::LEN,
    {
        let u: u64 = to_unsigned(self.timestamp);
        let mut out: Vec<u8> = Vec::with_capacity(Self::LEN);
        out.extend_from_slice(DISCRIMINATOR.as_slice());
        out.extend_from_slice(self.artist.as_slice());
        out.extend_from_slice(self.track_hash.as_slice());
        out.push((u % 256) as u8);
        out.push((u / 0x100 % 256) as u8);
        out.push((u / 0x1_0000 % 256) as u8);
        out.push((u / 0x100_0000 % 256) as u8);
        out.push((u / 0x1_0000_0000 % 256) as u8);
        out.push((u / 0x100_0000_0000 % 256) as u8);
        out.push((u / 0x1_0000_0000_0000 % 256) as u8);
        out.push((u / 0x100_0000_0000_0000 % 256) as u8);
        proof {
            assert(out@ =~= encoding(self@));
        }
        out
    }

    /// Reads a record from the bytes that store it.
    ///
    /// Succeeds exactly on 80 bytes that open with the discriminator, and
    /// fails with `MalformedRecord` on anything else.
    pub fn decode(bytes: &[u8]) -> (r: Result<ProofOfCreation, ErrorCode>)
        ensures
            match r {
                Ok(record) => is_encoding(bytes@) && record@ == decoding(bytes@),
                Err(e) => !is_encoding(bytes@) && e == ErrorCode::MalformedRecord,
            },
    {
        if bytes.len() != Self::LEN {
            return Err(ErrorCode::MalformedRecord);
        }
        let mut i: usize = 0;
        while i < DISCRIMINATOR_LEN
            invariant
                i <= DISCRIMINATOR_LEN,
                bytes@.len() == 80,
                forall|k: int| 0 <= k < i ==> bytes@[k] == discriminator()[k],
            decreases DISCRIMINATOR_LEN - i,
        {
            if bytes[i] != DISCRIMINATOR[i] {
                return Err(ErrorCode::MalformedRecord);
            }
            i = i + 1;
        }
        assert(bytes@.subrange(0, 8) =~= discriminator());
        let artist: [u8; 32] = take_array(bytes, 8);
        let track_hash: [u8; 32] = take_array(bytes, 40);
        let stamp: [u8; 8] = take_array(bytes, 72);
        let u: u64 = stamp[0] as u64 + stamp[1] as u64 * 0x100 + stamp[2] as u64 * 0x1_0000
            + stamp[3] as u64 * 0x100_0000 + stamp[4] as u64 * 0x1_0000_0000 + stamp[5] as u64
            * 0x100_0000_0000 + stamp[6] as u64 * 0x1_0000_0000_0000 + stamp[7] as u64
            * 0x100_0000_0000_0000;
        Ok(ProofOfCreation { artist, track_hash, timestamp: to_signed(u) })
    }
}

} // verus!
