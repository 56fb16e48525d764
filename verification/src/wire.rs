//! Little-endian integers, checksums, content hashes and compression: the
//! calls into the crates that compute them, each with the contract that the
//! rest of the library relies on.

use byteorder::{ByteOrder, LittleEndian, WriteBytesExt};
use vstd::bytes::{
    spec_u16_from_le_bytes, spec_u16_to_le_bytes, spec_u32_from_le_bytes, spec_u32_to_le_bytes,
    spec_u64_from_le_bytes, spec_u64_to_le_bytes,
};
use vstd::prelude::*;
use vstd::slice::slice_subrange;

verus! {

/// The CRC-32 checksum of a byte string, as `crc32fast` computes it.
pub uninterp spec fn crc32_checksum(bytes: Seq<u8>) -> u32;

/// The 32-byte BLAKE3 hash of a byte string.
pub uninterp spec fn blake3_digest(bytes: Seq<u8>) -> Seq<u8>;

/// The zstd frame that compressing a byte string at a level gives, if the
/// compressor succeeds.
pub uninterp spec fn zstd_frame(raw: Seq<u8>, level: i32) -> Option<Seq<u8>>;

/// The bytes that decompressing a zstd frame gives, if it is one.
pub uninterp spec fn zstd_content(data: Seq<u8>) -> Option<Seq<u8>>;

/// Calls `crc32fast::hash`: the result is the CRC-32 of the whole slice.
#[verifier::external_body]
pub(crate) fn crc32(bytes: &[u8]) -> (crc: u32)
    ensures
        crc == crc32_checksum(bytes@),
{
    crc32fast::hash(bytes)
}

/// Calls `blake3::hash` and copies the 32 bytes of the hash out.
#[verifier::external_body]
pub(crate) fn blake3_hash(bytes: &[u8]) -> (hash: [u8; 32])
    ensures
        hash@ == blake3_digest(bytes@),
{
    *blake3::hash(bytes).as_bytes()
}

/// Calls `zstd::encode_all`: the frame for these bytes at this level, or
/// `None` where the compressor reports an error. Compression is lossless:
/// the content of the frame is the input it was made from.
#[verifier::external_body]
pub(crate) fn zstd_encode(raw: &[u8], level: i32) -> (out: Option<Vec<u8>>)
    ensures
        out is Some <==> zstd_frame(raw@, level) is Some,
        out is Some ==> zstd_frame(raw@, level) == Some(out.unwrap()@),
        out is Some ==> zstd_content(out.unwrap()@) == Some(raw@),
{
    zstd::encode_all(raw, level).ok()
}

/// Calls `zstd::decode_all`: the content of the frame, or the decoder's
/// message where the input is no zstd frame.
#[verifier::external_body]
pub(crate) fn zstd_decode(data: &[u8]) -> (out: Result<Vec<u8>, String>)
    ensures
        out is Ok <==> zstd_content(data@) is Some,
        out is Ok ==> zstd_content(data@) == Some(out.unwrap()@),
{
    zstd::decode_all(data).map_err(|e| e.to_string())
}

/// Calls `byteorder`'s `write_u16` for little-endian on a vector, which
/// appends the two bytes of `v`, low byte first.
#[verifier::external_body]
pub(crate) fn put_u16_le(buf: &mut Vec<u8>, v: u16)
    ensures
        final(buf)@ == old(buf)@ + spec_u16_to_le_bytes(v),
{
    let _ = buf.write_u16::<LittleEndian>(v);
}

/// Calls `byteorder`'s `write_u32` for little-endian on a vector, which
/// appends the four bytes of `v`, low byte first.
#[verifier::external_body]
pub(crate) fn put_u32_le(buf: &mut Vec<u8>, v: u32)
    ensures
        final(buf)@ == old(buf)@ + spec_u32_to_le_bytes(v),
{
    let _ = buf.write_u32::<LittleEndian>(v);
}

/// Calls `byteorder`'s `write_u64` for little-endian on a vector, which
/// appends the eight bytes of `v`, low byte first.
#[verifier::external_body]
pub(crate) fn put_u64_le(buf: &mut Vec<u8>, v: u64)
    ensures
        final(buf)@ == old(buf)@ + spec_u64_to_le_bytes(v),
{
    let _ = buf.write_u64::<LittleEndian>(v);
}

/// Calls `LittleEndian::read_u16`, which reads the first two bytes.
#[verifier::external_body]
pub(crate) fn read_u16_le(bytes: &[u8]) -> (v: u16)
    requires
        bytes@.len() >= 2,
    ensures
        v == spec_u16_from_le_bytes(bytes@.subrange(0, 2)),
{
    LittleEndian::read_u16(bytes)
}

/// Calls `LittleEndian::read_u32`, which reads the first four bytes.
#[verifier::external_body]
pub(crate) fn read_u32_le(bytes: &[u8]) -> (v: u32)
    requires
        bytes@.len() >= 4,
    ensures
        v == spec_u32_from_le_bytes(bytes@.subrange(0, 4)),
{
    LittleEndian::read_u32(bytes)
}

/// Calls `LittleEndian::read_u64`, which reads the first eight bytes.
#[verifier::external_body]
pub(crate) fn read_u64_le(bytes: &[u8]) -> (v: u64)
    requires
        bytes@.len() >= 8,
    ensures
        v == spec_u64_from_le_bytes(bytes@.subrange(0, 8)),
{
    LittleEndian::read_u64(bytes)
}

/// Calls `String::from_utf8`: the text that the bytes spell, where they are
/// valid UTF-8.
#[verifier::external_body]
pub(crate) fn string_from_utf8(bytes: Vec<u8>) -> (text: Option<String>)
    ensures
        text is Some <==> vstd::utf8::valid_utf8(bytes@),
        text is Some ==> text.unwrap()@ == vstd::utf8::decode_utf8(bytes@),
{
    String::from_utf8(bytes).ok()
}

/// Calls `std::str::from_utf8`: whether the bytes are valid UTF-8.
#[verifier::external_body]
pub(crate) fn is_utf8(bytes: &[u8]) -> (valid: bool)
    ensures
        valid == vstd::utf8::valid_utf8(bytes@),
{
    std::str::from_utf8(bytes).is_ok()
}

/// Reads the system clock: milliseconds since the Unix epoch, or 0 where the
/// clock stands before it. Nothing is promised of the value.
#[verifier::external_body]
pub(crate) fn now_unix_ms() -> u64 {
    std::time::SystemTime::now().duration_since(std::time::UNIX_EPOCH).unwrap_or_default().as_millis() as u64
}

/// The little-endian `u16` at an offset of a byte string.
pub open spec fn u16_at(bytes: Seq<u8>, at: int) -> u16 {
    spec_u16_from_le_bytes(bytes.subrange(at, at + 2))
}

/// The little-endian `u32` at an offset of a byte string.
pub open spec fn u32_at(bytes: Seq<u8>, at: int) -> u32 {
    spec_u32_from_le_bytes(bytes.subrange(at, at + 4))
}

/// The little-endian `u64` at an offset of a byte string.
pub open spec fn u64_at(bytes: Seq<u8>, at: int) -> u64 {
    spec_u64_from_le_bytes(bytes.subrange(at, at + 8))
}

/// Reads the little-endian `u16` at `at`.
pub fn get_u16_le(bytes: &[u8], at: usize) -> (v: u16)
    requires
        at + 2 <= bytes.len(),
    ensures
        v == u16_at(bytes@, at as int),
{
    let part = slice_subrange(bytes, at, at + 2);
    assert(part@.subrange(0, 2) =~= bytes@.subrange(at as int, at + 2));
    read_u16_le(part)
}

/// Reads the little-endian `u32` at `at`.
pub fn get_u32_le(bytes: &[u8], at: usize) -> (v: u32)
    requires
        at + 4 <= bytes.len(),
    ensures
        v == u32_at(bytes@, at as int),
{
    let part = slice_subrange(bytes, at, at + 4);
    assert(part@.subrange(0, 4) =~= bytes@.subrange(at as int, at + 4));
    read_u32_le(part)
}

/// Reads the little-endian `u64` at `at`.
pub fn get_u64_le(bytes: &[u8], at: usize) -> (v: u64)
    requires
        at + 8 <= bytes.len(),
    ensures
        v == u64_at(bytes@, at as int),
{
    let part = slice_subrange(bytes, at, at + 8);
    assert(part@.subrange(0, 8) =~= bytes@.subrange(at as int, at + 8));
    read_u64_le(part)
}

/// The first `n` bytes of `s` laid over a zeroed 32-byte array.
pub open spec fn hash32_upto(s: Seq<u8>, n: nat) -> [u8; 32]
    decreases n,
{
    if n == 0 {
        vstd::array::spec_array_fill_for_copy_type::<u8, 32>(0u8)
    } else {
        vstd::array::spec_array_update(hash32_upto(s, (n - 1) as nat), n - 1, s[n - 1])
    }
}

/// The 32-byte array that holds the bytes of `s`.
pub open spec fn hash32(s: Seq<u8>) -> [u8; 32] {
    hash32_upto(s, 32)
}

proof fn lemma_hash32_upto(s: Seq<u8>, n: nat)
    requires
        n <= 32,
        s.len() == 32,
    ensures
        forall|j: int| 0 <= j < n ==> hash32_upto(s, n)@[j] == s[j],
    decreases n,
{
    if n > 0 {
        lemma_hash32_upto(s, (n - 1) as nat);
        vstd::array::axiom_spec_array_update(hash32_upto(s, (n - 1) as nat), n - 1, s[n - 1]);
    }
}

/// `hash32` holds exactly the bytes it was made from, and an array is the
/// `hash32` of its own bytes.
pub proof fn lemma_hash32(s: Seq<u8>)
    requires
        s.len() == 32,
    ensures
        hash32(s)@ == s,
{
    lemma_hash32_upto(s, 32);
    assert(hash32(s)@ =~= s);
}

/// An array is the `hash32` of its own bytes.
pub proof fn lemma_hash32_of_view(a: [u8; 32])
    ensures
        hash32(a@) == a,
{
    lemma_hash32(a@);
    assert(hash32(a@) =~= a);
}

/// Copies the 32 bytes at `at` out of a byte string.
pub fn get_hash(bytes: &[u8], at: usize) -> (hash: [u8; 32])
    requires
        at + 32 <= bytes.len(),
    ensures
        hash@ == bytes@.subrange(at as int, at + 32),
        hash == hash32(bytes@.subrange(at as int, at + 32)),
{
    let mut hash = [0u8; 32];
    let mut i: usize = 0;
    while i < 32
        invariant
            i <= 32,
            at + 32 <= bytes.len(),
            forall|j: int| 0 <= j < i ==> hash@[j] == bytes@[at + j],
        decreases 32 - i,
    {
        hash[i] = bytes[at + i];
        i += 1;
    }
    assert(hash@ =~= bytes@.subrange(at as int, at + 32));
    proof {
        lemma_hash32_of_view(hash);
    }
    hash
}

/// Copies a slice of bytes into a vector of its own.
pub fn slice_to_vec(bytes: &[u8]) -> (out: Vec<u8>)
    ensures
        out@ == bytes@,
{
    let mut out: Vec<u8> = Vec::with_capacity(bytes.len());
    out.extend_from_slice(bytes);
    assert(out@ =~= bytes@);
    out
}

/// Whether two 32-byte hashes are the same bytes.
pub fn hash_eq(a: &[u8; 32], b: &[u8; 32]) -> (same: bool)
    ensures
        same == (a@ == b@),
{
    let mut i: usize = 0;
    while i < 32
        invariant
            i <= 32,
            forall|j: int| 0 <= j < i ==> a@[j] == b@[j],
        decreases 32 - i,
    {
        if a[i] != b[i] {
            return false;
        }
        i += 1;
    }
    assert(a@ =~= b@);
    true
}

} // verus!
