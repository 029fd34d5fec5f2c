use vstd::prelude::*;
use crate::record::FileRecord;

verus! {

/// Bytes of `x`, least significant first.
pub open spec fn le32(x: u32) -> Seq<u8> {
    seq![x as u8, (x >> 8u32) as u8, (x >> 16u32) as u8, (x >> 24u32) as u8]
}

/// Bytes of `x`, least significant first.
pub open spec fn le64(x: u64) -> Seq<u8> {
    seq![
        x as u8,
        (x >> 8u64) as u8,
        (x >> 16u64) as u8,
        (x >> 24u64) as u8,
        (x >> 32u64) as u8,
        (x >> 40u64) as u8,
        (x >> 48u64) as u8,
        (x >> 56u64) as u8,
    ]
}

/// The integer whose bytes, least significant first, are `b[at..at + 4]`.
pub open spec fn read32(b: Seq<u8>, at: int) -> u32 {
    (b[at] as u32) | ((b[at + 1] as u32) << 8u32) | ((b[at + 2] as u32) << 16u32) | ((b[at
        + 3] as u32) << 24u32)
}

/// The integer whose bytes, least significant first, are `b[at..at + 8]`.
pub open spec fn read64(b: Seq<u8>, at: int) -> u64 {
    (b[at] as u64) | ((b[at + 1] as u64) << 8u64) | ((b[at + 2] as u64) << 16u64) | ((b[at
        + 3] as u64) << 24u64) | ((b[at + 4] as u64) << 32u64) | ((b[at + 5] as u64) << 40u64)
        | ((b[at + 6] as u64) << 48u64) | ((b[at + 7] as u64) << 56u64)
}

/// Length of a serialized envelope.
pub const ENVELOPE_LEN: usize = 12;

/// Length of the fixed-layout form of a record.
pub const FIXED_LEN: usize = 16;

/// The serialized envelope of a record: the label in four bytes, then the
/// size in eight, each least significant byte first.
pub open spec fn envelope_bytes(r: FileRecord) -> Seq<u8> {
    le32(#[verifier::truncate] (r.label as u32)) + le64(#[verifier::truncate] (r.size as u64))
}

/// The fixed-layout form of a record, as a `#[repr(C)]` struct of an `i32`
/// label, four zero bytes of explicit padding and an `i64` size on a
/// little-endian target: copied bit for bit across the boundary.
pub open spec fn fixed_bytes(r: FileRecord) -> Seq<u8> {
    le32(#[verifier::truncate] (r.label as u32)) + seq![0u8, 0u8, 0u8, 0u8] + le64(#[verifier::truncate] (r.size as u64))
}

/// What a receiver reads from an envelope: a record exactly when there are
/// twelve bytes.
pub open spec fn envelope_record(b: Seq<u8>) -> Option<FileRecord> {
    if b.len() == ENVELOPE_LEN {
        Some(FileRecord { label: read32(b, 0) as i32, size: read64(b, 4) as i64 })
    } else {
        None
    }
}

/// What a receiver reads from a fixed-layout buffer: a record exactly when
/// there are sixteen bytes and the padding is zero.
pub open spec fn fixed_record(b: Seq<u8>) -> Option<FileRecord> {
    if b.len() == FIXED_LEN && b[4] == 0 && b[5] == 0 && b[6] == 0 && b[7] == 0 {
        Some(FileRecord { label: read32(b, 0) as i32, size: read64(b, 8) as i64 })
    } else {
        None
    }
}

proof fn lemma_sign_casts(r: FileRecord)
    ensures
        (#[verifier::truncate] (r.label as u32)) as i32 == r.label,
        (#[verifier::truncate] (r.size as u64)) as i64 == r.size,
{
    let l = r.label;
    let s = r.size;
    assert((#[verifier::truncate] (l as u32)) as i32 == l) by (bit_vector);
    assert((#[verifier::truncate] (s as u64)) as i64 == s) by (bit_vector);
}

proof fn lemma_read_le32(x: u32)
    ensures
        read32(le32(x), 0) == x,
{
    let b = le32(x);
    assert(b[0] == x as u8 && b[1] == (x >> 8u32) as u8 && b[2] == (x >> 16u32) as u8 && b[3]
        == (x >> 24u32) as u8);
    assert(((x as u8) as u32) | ((((x >> 8u32) as u8) as u32) << 8u32) | ((((x >> 16u32) as u8)
        as u32) << 16u32) | ((((x >> 24u32) as u8) as u32) << 24u32) == x) by (bit_vector);
}

proof fn lemma_read_le64(x: u64, pre: Seq<u8>)
    ensures
        read64(pre + le64(x), pre.len() as int) == x,
{
    let b = pre + le64(x);
    let n = pre.len() as int;
    let l = le64(x);
    assert(b[n] == l[0] && b[n + 1] == l[1] && b[n + 2] == l[2] && b[n + 3] == l[3]);
    assert(b[n + 4] == l[4] && b[n + 5] == l[5] && b[n + 6] == l[6] && b[n + 7] == l[7]);
    assert(((x as u8) as u64) | ((((x >> 8u64) as u8) as u64) << 8u64) | ((((x >> 16u64) as u8)
        as u64) << 16u64) | ((((x >> 24u64) as u8) as u64) << 24u64) | ((((x >> 32u64) as u8)
        as u64) << 32u64) | ((((x >> 40u64) as u8) as u64) << 40u64) | ((((x >> 48u64) as u8)
        as u64) << 48u64) | ((((x >> 56u64) as u8) as u64) << 56u64) == x) by (bit_vector);
}

/// Reading back an envelope gives the record that was written.
pub proof fn lemma_envelope_round_trip(r: FileRecord)
    ensures
        envelope_record(envelope_bytes(r)) == Some(r),
{
    let b = envelope_bytes(r);
    lemma_sign_casts(r);
    lemma_read_le32(#[verifier::truncate] (r.label as u32));
    assert(b.subrange(0, 4) =~= le32(#[verifier::truncate] (r.label as u32)));
    assert(b[0] == le32(#[verifier::truncate] (r.label as u32))[0] && b[1] == le32(#[verifier::truncate] (r.label as u32))[1]);
    assert(b[2] == le32(#[verifier::truncate] (r.label as u32))[2] && b[3] == le32(#[verifier::truncate] (r.label as u32))[3]);
    lemma_read_le64(#[verifier::truncate] (r.size as u64), le32(#[verifier::truncate] (r.label as u32)));
}

/// Reading back a fixed-layout buffer gives the record that was written.
pub proof fn lemma_fixed_round_trip(r: FileRecord)
    ensures
        fixed_record(fixed_bytes(r)) == Some(r),
{
    let pre = le32(#[verifier::truncate] (r.label as u32)) + seq![0u8, 0u8, 0u8, 0u8];
    let b = fixed_bytes(r);
    lemma_sign_casts(r);
    lemma_read_le32(#[verifier::truncate] (r.label as u32));
    assert(b[0] == le32(#[verifier::truncate] (r.label as u32))[0] && b[1] == le32(#[verifier::truncate] (r.label as u32))[1]);
    assert(b[2] == le32(#[verifier::truncate] (r.label as u32))[2] && b[3] == le32(#[verifier::truncate] (r.label as u32))[3]);
    assert(b =~= pre + le64(#[verifier::truncate] (r.size as u64)));
    lemma_read_le64(#[verifier::truncate] (r.size as u64), pre);
}

fn push_le32(out: &mut Vec<u8>, x: u32)
    ensures
        final(out)@ == old(out)@ + le32(x),
{
    out.push(x as u8);
    out.push((x >> 8u32) as u8);
    out.push((x >> 16u32) as u8);
    out.push((x >> 24u32) as u8);
    assert(final(out)@ =~= old(out)@ + le32(x));
}

fn push_le64(out: &mut Vec<u8>, x: u64)
    ensures
        final(out)@ == old(out)@ + le64(x),
{
    out.push(x as u8);
    out.push((x >> 8u64) as u8);
    out.push((x >> 16u64) as u8);
    out.push((x >> 24u64) as u8);
    out.push((x >> 32u64) as u8);
    out.push((x >> 40u64) as u8);
    out.push((x >> 48u64) as u8);
    out.push((x >> 56u64) as u8);
    assert(final(out)@ =~= old(out)@ + le64(x));
}

fn get_le32(b: &[u8], at: usize) -> (r: u32)
    requires
        at + 4 <= b@.len(),
    ensures
        r == read32(b@, at as int),
{
    (b[at] as u32) | ((b[at + 1] as u32) << 8u32) | ((b[at + 2] as u32) << 16u32) | ((b[at
        + 3] as u32) << 24u32)
}

fn get_le64(b: &[u8], at: usize) -> (r: u64)
    requires
        at + 8 <= b@.len(),
    ensures
        r == read64(b@, at as int),
{
    (b[at] as u64) | ((b[at + 1] as u64) << 8u64) | ((b[at + 2] as u64) << 16u64) | ((b[at
        + 3] as u64) << 24u64) | ((b[at + 4] as u64) << 32u64) | ((b[at + 5] as u64) << 40u64)
        | ((b[at + 6] as u64) << 48u64) | ((b[at + 7] as u64) << 56u64)
}

/// The serialized envelope of `r`.
pub fn encode_envelope(r: &FileRecord) -> (b: Vec<u8>)
    ensures
        b@ == envelope_bytes(*r),
        b@.len() == ENVELOPE_LEN,
{
    let mut b: Vec<u8> = Vec::new();
    push_le32(&mut b, r.label as u32);
    push_le64(&mut b, r.size as u64);
    assert(b@ =~= envelope_bytes(*r));
    b
}

/// Reads a serialized envelope back; `None` unless `b` has exactly the
/// envelope's length.
pub fn decode_envelope(b: &[u8]) -> (r: Option<FileRecord>)
    ensures
        r == envelope_record(b@),
{
    if b.len() != ENVELOPE_LEN {
        return None;
    }
    let label = get_le32(b, 0) as i32;
    let size = get_le64(b, 4) as i64;
    Some(FileRecord { label, size })
}

/// The fixed-layout form of `r`.
pub fn encode_fixed(r: &FileRecord) -> (b: Vec<u8>)
    ensures
        b@ == fixed_bytes(*r),
        b@.len() == FIXED_LEN,
{
    let mut b: Vec<u8> = Vec::new();
    push_le32(&mut b, r.label as u32);
    b.push(0u8);
    b.push(0u8);
    b.push(0u8);
    b.push(0u8);
    push_le64(&mut b, r.size as u64);
    assert(b@ =~= fixed_bytes(*r));
    b
}

/// Reads a fixed-layout buffer back; `None` unless `b` has exactly the
/// layout's length and zero padding.
pub fn decode_fixed(b: &[u8]) -> (r: Option<FileRecord>)
    ensures
        r == fixed_record(b@),
{
    if b.len() != FIXED_LEN || b[4] != 0 || b[5] != 0 || b[6] != 0 || b[7] != 0 {
        return None;
    }
    let label = get_le32(b, 0) as i32;
    let size = get_le64(b, 8) as i64;
    Some(FileRecord { label, size })
}

} // verus!
