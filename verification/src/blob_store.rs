//! The blob store: a content-addressed pack of blobs and a sidecar index,
//! each held as the byte image of its file.

use crate::error::{ErrorKind, StoreError};
use crate::replay::{lemma_replay_cut, lemma_replay_extend, next_is_local, replay_from, NextEntry};
use crate::wire::{
    crc32, crc32_checksum, get_hash, get_u16_le, get_u32_le, get_u64_le, hash32, hash_eq,
    lemma_hash32_of_view, put_u16_le, put_u32_le, put_u64_le, slice_to_vec, u16_at, u32_at,
    u64_at, zstd_content, zstd_decode, zstd_encode, zstd_frame,
};
use vstd::bytes::{
    lemma_auto_spec_u16_to_from_le_bytes, lemma_auto_spec_u32_to_from_le_bytes,
    lemma_auto_spec_u64_to_from_le_bytes, spec_u16_to_le_bytes, spec_u32_to_le_bytes,
    spec_u64_to_le_bytes,
};
use vstd::prelude::*;
use vstd::slice::slice_subrange;

verus! {

/// The magic number that opens every blob in the pack: the letters `BSLB`.
pub const BLOB_MAGIC: u32 = 0x42534C42;

/// The version of the pack format.
pub const BLOB_VERSION: u16 = 1;

/// The compression level that blobs are stored with.
pub const BLOB_ZSTD_LEVEL: i32 = 1;

/// How the bytes of a blob are stored in the pack.
#[derive(Debug, Clone, Copy, PartialEq, Eq, Structural)]
pub enum BlobCodec {
    /// As they are.
    Raw,
    /// As a zstd frame.
    Zstd,
}

/// Where a blob stands in the pack, and how.
#[derive(Debug, Clone, Copy)]
pub struct BlobIndexEntry {
    pub offset: u64,
    pub raw_len: u32,
    pub stored_len: u32,
    pub codec: BlobCodec,
}

/// The number that stands for a codec on disk.
pub open spec fn codec_code(codec: BlobCodec) -> u16 {
    match codec {
        BlobCodec::Raw => 0,
        BlobCodec::Zstd => 1,
    }
}

/// The codec that a number on disk stands for, if any.
pub open spec fn codec_of_code(code: u16) -> Option<BlobCodec> {
    if code == 0 {
        Some(BlobCodec::Raw)
    } else if code == 1 {
        Some(BlobCodec::Zstd)
    } else {
        None
    }
}

/// The number that stands for a codec on disk.
pub fn codec_to_u16(codec: BlobCodec) -> (code: u16)
    ensures
        code == codec_code(codec),
{
    match codec {
        BlobCodec::Raw => 0,
        BlobCodec::Zstd => 1,
    }
}

/// The codec that a number on disk stands for, if any.
pub fn codec_from_u16(code: u16) -> (codec: Option<BlobCodec>)
    ensures
        codec == codec_of_code(code),
{
    if code == 0 {
        Some(BlobCodec::Raw)
    } else if code == 1 {
        Some(BlobCodec::Zstd)
    } else {
        None
    }
}

/// An index record as it stands in the sidecar file: 52 bytes.
pub open spec fn index_record_bytes(hash: Seq<u8>, entry: BlobIndexEntry) -> Seq<u8> {
    hash + spec_u64_to_le_bytes(entry.offset) + spec_u32_to_le_bytes(entry.raw_len)
        + spec_u32_to_le_bytes(entry.stored_len) + spec_u16_to_le_bytes(codec_code(entry.codec))
        + spec_u16_to_le_bytes(0)
}

/// Whether a whole index record stands at `at`.
pub open spec fn index_record_whole(log: Seq<u8>, at: int) -> bool {
    0 <= at && at + 52 <= log.len()
}

/// Whether a whole index record stands at `at` that names no known codec.
pub open spec fn index_corrupt_at(log: Seq<u8>, at: int) -> bool {
    index_record_whole(log, at) && codec_of_code(u16_at(log, at + 48)) is None
}

/// Where the index record at `at` ends, if a whole record with a known codec
/// stands there.
pub open spec fn index_next(log: Seq<u8>, at: int) -> Option<int> {
    if index_record_whole(log, at) && !index_corrupt_at(log, at) {
        Some(at + 52)
    } else {
        None
    }
}

/// The hash that an index record is keyed by.
pub open spec fn decode_index_key(rec: Seq<u8>) -> Seq<u8> {
    rec.subrange(0, 32)
}

/// The entry that the fields of an index record spell.
pub open spec fn decode_index_entry(rec: Seq<u8>) -> BlobIndexEntry {
    BlobIndexEntry {
        offset: u64_at(rec, 32),
        raw_len: u32_at(rec, 40),
        stored_len: u32_at(rec, 44),
        codec: match codec_of_code(u16_at(rec, 48)) {
            Some(c) => c,
            None => BlobCodec::Raw,
        },
    }
}

/// Takes one index record into the map: a later record of a hash replaces an
/// earlier one.
pub open spec fn index_step(acc: Map<Seq<u8>, BlobIndexEntry>, rec: Seq<u8>) -> Map<
    Seq<u8>,
    BlobIndexEntry,
> {
    acc.insert(decode_index_key(rec), decode_index_entry(rec))
}

/// `index_next`, as a function value.
pub open spec fn index_next_fn() -> NextEntry {
    |log: Seq<u8>, at: int| index_next(log, at)
}

/// `index_step`, as a function value.
pub open spec fn index_step_fn() -> spec_fn(Map<Seq<u8>, BlobIndexEntry>, Seq<u8>) -> Map<
    Seq<u8>,
    BlobIndexEntry,
> {
    |acc: Map<Seq<u8>, BlobIndexEntry>, rec: Seq<u8>| index_step(acc, rec)
}

/// The index that a sidecar image replays to, and the length of its valid
/// prefix.
pub open spec fn replay_index(log: Seq<u8>) -> (Map<Seq<u8>, BlobIndexEntry>, int) {
    replay_from(log, index_next_fn(), index_step_fn(), 0, Map::empty())
}

/// An index record's bytes are a whole valid record, and decode to what was
/// encoded.
pub proof fn lemma_index_record_roundtrip(hash: Seq<u8>, entry: BlobIndexEntry)
    requires
        hash.len() == 32,
    ensures
        ({
            let r = index_record_bytes(hash, entry);
            &&& r.len() == 52
            &&& index_next(r, 0) == Some(52int)
            &&& decode_index_key(r) == hash
            &&& decode_index_entry(r) == entry
        }),
{
    lemma_auto_spec_u16_to_from_le_bytes();
    lemma_auto_spec_u32_to_from_le_bytes();
    lemma_auto_spec_u64_to_from_le_bytes();
    let r = index_record_bytes(hash, entry);
    assert(r.len() == 52);
    assert(r.subrange(0, 32) =~= hash);
    assert(r.subrange(32, 40) =~= spec_u64_to_le_bytes(entry.offset));
    assert(r.subrange(40, 44) =~= spec_u32_to_le_bytes(entry.raw_len));
    assert(r.subrange(44, 48) =~= spec_u32_to_le_bytes(entry.stored_len));
    assert(r.subrange(48, 50) =~= spec_u16_to_le_bytes(codec_code(entry.codec)));
}

/// The 48 bytes that open a blob in the pack.
pub open spec fn blob_header_bytes(code: u16, raw_len: u32, stored_len: u32, hash: Seq<u8>) -> Seq<
    u8,
> {
    spec_u32_to_le_bytes(BLOB_MAGIC) + spec_u16_to_le_bytes(BLOB_VERSION) + spec_u16_to_le_bytes(
        code,
    ) + spec_u32_to_le_bytes(raw_len) + spec_u32_to_le_bytes(stored_len) + hash
}

/// A blob as it stands in the pack: the header, the stored bytes, and the
/// CRC-32 of both.
pub open spec fn blob_pack_bytes(codec: BlobCodec, raw_len: u32, hash: Seq<u8>, stored: Seq<u8>) -> Seq<
    u8,
> {
    let body = blob_header_bytes(codec_code(codec), raw_len, stored.len() as u32, hash) + stored;
    body + spec_u32_to_le_bytes(crc32_checksum(body))
}

/// What reading a blob gives: its bytes, or the kind of the failure.
pub enum BlobRead {
    /// The blob's bytes.
    Content(Seq<u8>),
    /// The read fails with an error of this kind.
    Failure(ErrorKind),
}

/// Reads the blob with this hash from the pack at `offset`: the header is
/// checked field by field, then the stored bytes and their checksum, then the
/// bytes are decompressed and their length is held against the header's.
///
/// A field that lies beyond the end of the pack gives `Io`; a bad magic,
/// version, hash, checksum, codec, frame or length gives `Corrupt`.
pub open spec fn read_blob(pack: Seq<u8>, offset: int, hash: Seq<u8>) -> BlobRead {
    let stored_len = u32_at(pack, offset + 12) as int;
    let stored = pack.subrange(offset + 48, offset + 48 + stored_len);
    if offset < 0 || offset + 4 > pack.len() {
        BlobRead::Failure(ErrorKind::Io)
    } else if u32_at(pack, offset) != BLOB_MAGIC {
        BlobRead::Failure(ErrorKind::Corrupt)
    } else if offset + 6 > pack.len() {
        BlobRead::Failure(ErrorKind::Io)
    } else if u16_at(pack, offset + 4) != BLOB_VERSION {
        BlobRead::Failure(ErrorKind::Corrupt)
    } else if offset + 48 > pack.len() {
        BlobRead::Failure(ErrorKind::Io)
    } else if pack.subrange(offset + 16, offset + 48) != hash {
        BlobRead::Failure(ErrorKind::Corrupt)
    } else if offset + 48 + stored_len + 4 > pack.len() {
        BlobRead::Failure(ErrorKind::Io)
    } else if u32_at(pack, offset + 48 + stored_len) != crc32_checksum(
        pack.subrange(offset, offset + 48 + stored_len),
    ) {
        BlobRead::Failure(ErrorKind::Corrupt)
    } else {
        match codec_of_code(u16_at(pack, offset + 6)) {
            None => BlobRead::Failure(ErrorKind::Corrupt),
            Some(BlobCodec::Raw) => if stored_len == u32_at(pack, offset + 8) {
                BlobRead::Content(stored)
            } else {
                BlobRead::Failure(ErrorKind::Corrupt)
            },
            Some(BlobCodec::Zstd) => match zstd_content(stored) {
                Some(raw) => if raw.len() as u32 == u32_at(pack, offset + 8) {
                    BlobRead::Content(raw)
                } else {
                    BlobRead::Failure(ErrorKind::Corrupt)
                },
                None => BlobRead::Failure(ErrorKind::Corrupt),
            },
        }
    }
}

/// Reads the blob with this hash from a pack image at `offset`: see
/// `read_blob`.
pub fn read_blob_at(pack: &[u8], offset: u64, hash: &[u8; 32]) -> (r: Result<Vec<u8>, StoreError>)
    ensures
        match r {
            Ok(raw) => read_blob(pack@, offset as int, hash@) == BlobRead::Content(raw@),
            Err(e) => read_blob(pack@, offset as int, hash@) == BlobRead::Failure(e.kind()),
        },
{
    let len = pack.len();
    if offset > len as u64 || len - (offset as usize) < 4 {
        return Err(StoreError::Io("unexpected end of pack".to_string()));
    }
    let at = offset as usize;
    let left = len - at;
    let magic = get_u32_le(pack, at);
    if magic != BLOB_MAGIC {
        return Err(StoreError::Corrupt("invalid blob magic".to_string()));
    }
    if left < 6 {
        return Err(StoreError::Io("unexpected end of pack".to_string()));
    }
    let version = get_u16_le(pack, at + 4);
    if version != BLOB_VERSION {
        return Err(StoreError::Corrupt("unsupported blob version".to_string()));
    }
    if left < 48 {
        return Err(StoreError::Io("unexpected end of pack".to_string()));
    }
    let codec_raw = get_u16_le(pack, at + 6);
    let raw_len = get_u32_le(pack, at + 8);
    let stored_len32 = get_u32_le(pack, at + 12);
    let stored_hash = get_hash(pack, at + 16);
    if !hash_eq(&stored_hash, hash) {
        return Err(StoreError::Corrupt("blob hash mismatch".to_string()));
    }
    if stored_len32 as u64 > (left - 48) as u64 {
        return Err(StoreError::Io("unexpected end of pack".to_string()));
    }
    let stored_len = stored_len32 as usize;
    if left - 48 - stored_len < 4 {
        return Err(StoreError::Io("unexpected end of pack".to_string()));
    }
    let crc = get_u32_le(pack, at + 48 + stored_len);
    let actual_crc = crc32(slice_subrange(pack, at, at + 48 + stored_len));
    if crc != actual_crc {
        return Err(StoreError::Corrupt("blob crc mismatch".to_string()));
    }
    let codec = match codec_from_u16(codec_raw) {
        Some(c) => c,
        None => {
            return Err(StoreError::Corrupt("unknown blob codec".to_string()));
        },
    };
    let stored = slice_subrange(pack, at + 48, at + 48 + stored_len);
    let raw_bytes = match codec {
        BlobCodec::Raw => slice_to_vec(stored),
        BlobCodec::Zstd => match zstd_decode(stored) {
            Ok(raw) => raw,
            Err(msg) => {
                return Err(StoreError::Corrupt(msg));
            },
        },
    };
    if raw_bytes.len() as u32 != raw_len {
        return Err(StoreError::Corrupt("blob length mismatch".to_string()));
    }
    Ok(raw_bytes)
}

/// Whether no hash occurs twice.
pub open spec fn distinct_hashes(hashes: Seq<[u8; 32]>) -> bool {
    forall|i: int, j: int|
        0 <= i < hashes.len() && 0 <= j < hashes.len() && (#[trigger] hashes[i])@ == (
        #[trigger] hashes[j])@ ==> i == j
}

/// Whether the hash `h` stands at place `i`.
pub open spec fn slot_holds(hashes: Seq<[u8; 32]>, h: Seq<u8>, i: int) -> bool {
    0 <= i < hashes.len() && hashes[i]@ == h
}

/// The map from each hash to the entry at its place.
pub open spec fn slots_map(hashes: Seq<[u8; 32]>, entries: Seq<BlobIndexEntry>) -> Map<
    Seq<u8>,
    BlobIndexEntry,
> {
    Map::new(
        |h: Seq<u8>| exists|i: int| slot_holds(hashes, h, i),
        |h: Seq<u8>| entries[choose|i: int| slot_holds(hashes, h, i)],
    )
}

proof fn lemma_slots_map_at(hashes: Seq<[u8; 32]>, entries: Seq<BlobIndexEntry>, i: int)
    requires
        distinct_hashes(hashes),
        hashes.len() == entries.len(),
        0 <= i < hashes.len(),
    ensures
        slots_map(hashes, entries).contains_key(hashes[i]@),
        slots_map(hashes, entries)[hashes[i]@] == entries[i],
{
    assert(slot_holds(hashes, hashes[i]@, i));
    let j = choose|j: int| slot_holds(hashes, hashes[i]@, j);
    assert(hashes[j]@ == hashes[i]@);
}

proof fn lemma_slots_map_push(
    hashes: Seq<[u8; 32]>,
    entries: Seq<BlobIndexEntry>,
    hash: [u8; 32],
    entry: BlobIndexEntry,
)
    requires
        distinct_hashes(hashes),
        hashes.len() == entries.len(),
        !slots_map(hashes, entries).contains_key(hash@),
    ensures
        distinct_hashes(hashes.push(hash)),
        slots_map(hashes.push(hash), entries.push(entry)) == slots_map(hashes, entries).insert(
            hash@,
            entry,
        ),
{
    let hs = hashes.push(hash);
    let es = entries.push(entry);
    assert forall|i: int, j: int|
        0 <= i < hs.len() && 0 <= j < hs.len() && (#[trigger] hs[i])@ == (#[trigger] hs[j])@
        implies i == j by {
        if i < hashes.len() {
            assert(slot_holds(hashes, hashes[i]@, i));
        }
        if j < hashes.len() {
            assert(slot_holds(hashes, hashes[j]@, j));
        }
    }
    let a = slots_map(hs, es);
    let b = slots_map(hashes, entries).insert(hash@, entry);
    assert forall|h: Seq<u8>| a.contains_key(h) <==> b.contains_key(h) by {
        if a.contains_key(h) {
            let i = choose|i: int| slot_holds(hs, h, i);
            if i < hashes.len() {
                assert(slot_holds(hashes, h, i));
            }
        }
        if b.contains_key(h) {
            if h == hash@ {
                assert(slot_holds(hs, h, hashes.len() as int));
            } else {
                let i = choose|i: int| slot_holds(hashes, h, i);
                assert(slot_holds(hs, h, i));
            }
        }
    }
    assert forall|h: Seq<u8>| a.contains_key(h) implies a[h] == b[h] by {
        let i = choose|i: int| slot_holds(hs, h, i);
        if i < hashes.len() {
            assert(slot_holds(hashes, h, i));
            lemma_slots_map_at(hashes, entries, i);
        } else {
            assert(h == hash@);
        }
    }
    assert(a =~= b);
}

proof fn lemma_slots_map_update(
    hashes: Seq<[u8; 32]>,
    entries: Seq<BlobIndexEntry>,
    i: int,
    entry: BlobIndexEntry,
)
    requires
        distinct_hashes(hashes),
        hashes.len() == entries.len(),
        0 <= i < hashes.len(),
    ensures
        slots_map(hashes, entries.update(i, entry)) == slots_map(hashes, entries).insert(
            hashes[i]@,
            entry,
        ),
{
    let es = entries.update(i, entry);
    let a = slots_map(hashes, es);
    let b = slots_map(hashes, entries).insert(hashes[i]@, entry);
    assert(slot_holds(hashes, hashes[i]@, i));
    assert forall|h: Seq<u8>| a.contains_key(h) implies a[h] == b[h] by {
        let j = choose|j: int| slot_holds(hashes, h, j);
        lemma_slots_map_at(hashes, entries, j);
    }
    assert(a =~= b);
}

/// The blob store: the images of the pack and of its sidecar index, and the
/// index that the sidecar replays to. The index is kept in the order of its
/// records: each hash once, at the place of its first record, and beside it
/// the entry of its latest record.
pub struct BlobStore {
    pack: Vec<u8>,
    idx: Vec<u8>,
    hashes: Vec<[u8; 32]>,
    entries: Vec<BlobIndexEntry>,
}

/// What a blob store holds.
pub ghost struct BlobStoreView {
    /// The index: where the blob of each hash stands.
    pub index: Map<Seq<u8>, BlobIndexEntry>,
    /// The image of the pack.
    pub pack: Seq<u8>,
    /// The image of the sidecar index.
    pub index_log: Seq<u8>,
}

impl View for BlobStore {
    type V = BlobStoreView;

    closed spec fn view(&self) -> BlobStoreView {
        BlobStoreView {
            index: slots_map(self.hashes@, self.entries@),
            pack: self.pack@,
            index_log: self.idx@,
        }
    }
}

/// What `get` gives for a hash.
pub open spec fn spec_get_blob(v: BlobStoreView, hash: Seq<u8>) -> BlobRead {
    if v.index.contains_key(hash) {
        read_blob(v.pack, v.index[hash].offset as int, hash)
    } else {
        BlobRead::Failure(ErrorKind::NotFound)
    }
}

/// Whether the blob of a hash reads back from the pack: its header holds the
/// hash, its checksum matches, and its decompressed length is the raw length
/// that the index records.
pub open spec fn blob_readable(v: BlobStoreView, hash: Seq<u8>) -> bool {
    &&& v.index.contains_key(hash)
    &&& spec_get_blob(v, hash) is Content
    &&& spec_get_blob(v, hash)->Content_0.len() == v.index[hash].raw_len
}

/// Whether the pack and the index agree: every blob of the index reads back.
pub open spec fn pack_agrees(v: BlobStoreView) -> bool {
    forall|h: Seq<u8>| #[trigger] v.index.contains_key(h) ==> blob_readable(v, h)
}

/// The bytes that a blob is stored as, and their codec: the zstd frame where
/// there is one and it is strictly shorter, else the blob itself.
pub open spec fn stored_form(raw: Seq<u8>) -> (BlobCodec, Seq<u8>) {
    match zstd_frame(raw, BLOB_ZSTD_LEVEL) {
        Some(frame) => if frame.len() < raw.len() {
            (BlobCodec::Zstd, frame)
        } else {
            (BlobCodec::Raw, raw)
        },
        None => (BlobCodec::Raw, raw),
    }
}

/// The index entry of a blob that is put at the end of the pack.
pub open spec fn new_entry(v: BlobStoreView, raw: Seq<u8>) -> BlobIndexEntry {
    BlobIndexEntry {
        offset: v.pack.len() as u64,
        raw_len: raw.len() as u32,
        stored_len: stored_form(raw).1.len() as u32,
        codec: stored_form(raw).0,
    }
}

/// The store after a blob that it did not hold was put.
pub open spec fn view_after_put(v: BlobStoreView, hash: Seq<u8>, raw: Seq<u8>) -> BlobStoreView {
    BlobStoreView {
        index: v.index.insert(hash, new_entry(v, raw)),
        pack: v.pack + blob_pack_bytes(
            stored_form(raw).0,
            raw.len() as u32,
            hash,
            stored_form(raw).1,
        ),
        index_log: v.index_log + index_record_bytes(hash, new_entry(v, raw)),
    }
}

/// Counts of what a blob store holds, and the sizes of its files.
#[derive(Debug, Clone, Copy)]
pub struct BlobStoreStats {
    pub blobs_total: usize,
    pub pack_bytes: u64,
    pub idx_bytes: u64,
}

proof fn lemma_index_next_local(log: Seq<u8>, ext: Seq<u8>)
    ensures
        next_is_local(index_next_fn(), log, ext),
{
    assert forall|a: int| 0 <= a && a + 52 <= log.len() implies #[trigger] index_next_fn()(
        log + ext,
        a,
    ) == index_next_fn()(log, a) by {
        assert((log + ext).subrange(a + 48, a + 48 + 2) =~= log.subrange(a + 48, a + 48 + 2));
    }
}

/// A sidecar index that replays to its end, with one more record appended,
/// replays to its new end and to the old index with that record taken in.
pub proof fn lemma_index_append(log: Seq<u8>, hash: Seq<u8>, entry: BlobIndexEntry)
    requires
        replay_index(log).1 == log.len(),
        hash.len() == 32,
    ensures
        index_record_bytes(hash, entry).len() == 52,
        replay_index(log + index_record_bytes(hash, entry)) == (
            replay_index(log).0.insert(hash, entry),
            (log.len() + 52) as int,
        ),
{
    let ext = index_record_bytes(hash, entry);
    let all = log + ext;
    let n = log.len() as int;
    lemma_index_record_roundtrip(hash, entry);
    lemma_index_next_local(log, ext);
    lemma_replay_extend(log, ext, index_next_fn(), index_step_fn(), 0, Map::empty());
    assert(all.subrange(n, n + 52) =~= ext);
    assert(all.subrange(n + 48, n + 48 + 2) =~= ext.subrange(48, 50));
    assert(index_next(all, n) == Some(n + 52));
    assert(index_next(all, n + 52) is None);
    reveal_with_fuel(replay_from, 3);
}

/// A sidecar index that replays to its end, followed by a record without its
/// last byte, replays to the index and the end of the file alone.
pub proof fn lemma_index_partial_tail(log: Seq<u8>, hash: Seq<u8>, entry: BlobIndexEntry)
    requires
        replay_index(log).1 == log.len(),
        hash.len() == 32,
    ensures
        replay_index((log + index_record_bytes(hash, entry)).drop_last()) == replay_index(log),
{
    let ext = index_record_bytes(hash, entry).drop_last();
    let n = log.len() as int;
    lemma_index_record_roundtrip(hash, entry);
    assert((log + index_record_bytes(hash, entry)).drop_last() =~= log + ext);
    lemma_index_next_local(log, ext);
    lemma_replay_extend(log, ext, index_next_fn(), index_step_fn(), 0, Map::empty());
    assert(index_next(log + ext, n) is None);
}

/// A blob that reads back from a pack reads back, the same, from the pack
/// with more bytes behind it.
pub proof fn lemma_read_blob_stable(pack: Seq<u8>, ext: Seq<u8>, offset: int, hash: Seq<u8>)
    requires
        read_blob(pack, offset, hash) is Content,
    ensures
        read_blob(pack + ext, offset, hash) == read_blob(pack, offset, hash),
{
    let all = pack + ext;
    let n = u32_at(pack, offset + 12) as int;
    assert(all.subrange(offset, offset + 4) =~= pack.subrange(offset, offset + 4));
    assert(all.subrange(offset + 4, offset + 4 + 2) =~= pack.subrange(offset + 4, offset + 4 + 2));
    assert(all.subrange(offset + 6, offset + 6 + 2) =~= pack.subrange(offset + 6, offset + 6 + 2));
    assert(all.subrange(offset + 8, offset + 8 + 4) =~= pack.subrange(offset + 8, offset + 8 + 4));
    assert(all.subrange(offset + 12, offset + 12 + 4) =~= pack.subrange(
        offset + 12,
        offset + 12 + 4,
    ));
    assert(all.subrange(offset + 16, offset + 48) =~= pack.subrange(offset + 16, offset + 48));
    assert(all.subrange(offset + 48, offset + 48 + n) =~= pack.subrange(
        offset + 48,
        offset + 48 + n,
    ));
    assert(all.subrange(offset, offset + 48 + n) =~= pack.subrange(offset, offset + 48 + n));
    assert(all.subrange(offset + 48 + n, offset + 48 + n + 4) =~= pack.subrange(
        offset + 48 + n,
        offset + 48 + n + 4,
    ));
}

/// A blob that was put at the end of a pack reads back from there.
pub proof fn lemma_read_put_blob(pack: Seq<u8>, hash: Seq<u8>, raw: Seq<u8>)
    requires
        hash.len() == 32,
        raw.len() <= u32::MAX,
        stored_form(raw).0 == BlobCodec::Zstd ==> zstd_content(stored_form(raw).1) == Some(raw),
    ensures
        read_blob(
            pack + blob_pack_bytes(stored_form(raw).0, raw.len() as u32, hash, stored_form(raw).1),
            pack.len() as int,
            hash,
        ) == BlobRead::Content(raw),
{
    lemma_auto_spec_u16_to_from_le_bytes();
    lemma_auto_spec_u32_to_from_le_bytes();
    let codec = stored_form(raw).0;
    let stored = stored_form(raw).1;
    let n = stored.len() as int;
    assert(n <= raw.len());
    let header = blob_header_bytes(codec_code(codec), raw.len() as u32, n as u32, hash);
    let body = header + stored;
    let bytes = blob_pack_bytes(codec, raw.len() as u32, hash, stored);
    let all = pack + bytes;
    let o = pack.len() as int;
    assert(header.len() == 48);
    assert(bytes.len() == 48 + n + 4);
    assert(all.subrange(o, o + 4) =~= spec_u32_to_le_bytes(BLOB_MAGIC));
    assert(all.subrange(o + 4, o + 4 + 2) =~= spec_u16_to_le_bytes(BLOB_VERSION));
    assert(all.subrange(o + 6, o + 6 + 2) =~= spec_u16_to_le_bytes(codec_code(codec)));
    assert(all.subrange(o + 8, o + 8 + 4) =~= spec_u32_to_le_bytes(raw.len() as u32));
    assert(all.subrange(o + 12, o + 12 + 4) =~= spec_u32_to_le_bytes(n as u32));
    assert(all.subrange(o + 16, o + 48) =~= hash);
    assert(u32_at(all, o + 12) == n);
    assert(all.subrange(o + 48, o + 48 + n) =~= stored);
    assert(all.subrange(o, o + 48 + n) =~= body);
    assert(all.subrange(o + 48 + n, o + 48 + n + 4) =~= spec_u32_to_le_bytes(
        crc32_checksum(body),
    ));
}

impl BlobStore {
    /// Whether the sidecar image replays, to its very end, to the index, and
    /// no hash stands twice in it.
    pub closed spec fn wf(&self) -> bool {
        &&& self.hashes@.len() == self.entries@.len()
        &&& distinct_hashes(self.hashes@)
        &&& replay_index(self.idx@) == (self@.index, self.idx@.len() as int)
        &&& self@.index.dom().finite()
        &&& self@.index.dom().len() == self.hashes@.len()
    }

    /// In a well-formed store, every key of the index is a hash of 32 bytes
    /// and the sidecar image replays to the index.
    pub proof fn lemma_wf(&self)
        requires
            self.wf(),
        ensures
            replay_index(self@.index_log) == (self@.index, self@.index_log.len() as int),
            self@.index.dom().finite(),
            forall|h: Seq<u8>| #[trigger] self@.index.contains_key(h) ==> h.len() == 32,
    {
        assert forall|h: Seq<u8>| #[trigger] self@.index.contains_key(h) implies h.len()
            == 32 by {
            let i = choose|i: int| slot_holds(self.hashes@, h, i);
            assert(self.hashes@[i]@ == h);
        }
    }

    /// A store without blobs, over two empty images.
    pub fn new() -> (store: BlobStore)
        ensures
            store.wf(),
            store@.index == Map::<Seq<u8>, BlobIndexEntry>::empty(),
            store@.pack.len() == 0,
            store@.index_log.len() == 0,
            pack_agrees(store@),
    {
        let store = BlobStore {
            pack: Vec::new(),
            idx: Vec::new(),
            hashes: Vec::new(),
            entries: Vec::new(),
        };
        assert(store@.index =~= Map::empty());
        store
    }

    /// Opens a store over the images of the pack and of the sidecar index:
    /// replays the index and cuts it to its valid prefix. The pack is not
    /// scanned.
    ///
    /// Fails with `Corrupt` where the first record that does not replay is
    /// whole but names no known codec.
    pub fn open(pack: Vec<u8>, idx: Vec<u8>) -> (r: Result<BlobStore, StoreError>)
        ensures
            r is Ok <==> !index_corrupt_at(idx@, replay_index(idx@).1),
            match r {
                Ok(store) => {
                    &&& store.wf()
                    &&& store@.index == replay_index(idx@).0
                    &&& store@.index_log == idx@.subrange(0, replay_index(idx@).1)
                    &&& store@.pack == pack@
                },
                Err(e) => e.kind() == ErrorKind::Corrupt,
            },
    {
        let mut store = BlobStore { pack, idx: Vec::new(), hashes: Vec::new(), entries: Vec::new() };
        assert(store@.index =~= Map::empty());
        let valid_len = match store.load_index(&idx) {
            Ok(n) => n,
            Err(e) => {
                return Err(e);
            },
        };
        let mut idx = idx;
        let ghost idx0 = idx@;
        idx.truncate(valid_len);
        proof {
            let rest = idx0.subrange(valid_len as int, idx0.len() as int);
            assert(idx@ + rest =~= idx0);
            lemma_index_next_local(idx@, rest);
            lemma_replay_cut(idx@, rest, index_next_fn(), index_step_fn(), 0, Map::empty());
        }
        store.idx = idx;
        Ok(store)
    }

    /// Replays a sidecar image into an empty index, and gives the length of
    /// its valid prefix.
    fn load_index(&mut self, idx: &Vec<u8>) -> (r: Result<usize, StoreError>)
        requires
            old(self).hashes@.len() == 0,
            old(self).entries@.len() == 0,
        ensures
            final(self).pack == old(self).pack,
            final(self).idx == old(self).idx,
            r is Ok <==> !index_corrupt_at(idx@, replay_index(idx@).1),
            match r {
                Ok(valid_len) => {
                    &&& valid_len <= idx.len()
                    &&& final(self).hashes@.len() == final(self).entries@.len()
                    &&& distinct_hashes(final(self).hashes@)
                    &&& final(self)@.index.dom().finite()
                    &&& final(self)@.index.dom().len() == final(self).hashes@.len()
                    &&& replay_index(idx@) == (final(self)@.index, valid_len as int)
                },
                Err(e) => e.kind() == ErrorKind::Corrupt,
            },
    {
        assert(self@.index =~= Map::empty());
        let mut at: usize = 0;
        loop
            invariant
                at <= idx.len(),
                self.pack == old(self).pack,
                self.idx == old(self).idx,
                self.hashes@.len() == self.entries@.len(),
                distinct_hashes(self.hashes@),
                self@.index.dom().finite(),
                self@.index.dom().len() == self.hashes@.len(),
                replay_from(idx@, index_next_fn(), index_step_fn(), at as int, self@.index)
                    == replay_index(idx@),
            decreases idx.len() - at,
        {
            if idx.len() - at < 52 {
                return Ok(at);
            }
            let rec = slice_subrange(idx.as_slice(), at, at + 52);
            let hash = get_hash(rec, 0);
            let offset = get_u64_le(rec, 32);
            let raw_len = get_u32_le(rec, 40);
            let stored_len = get_u32_le(rec, 44);
            let codec_raw = get_u16_le(rec, 48);
            assert(rec@.subrange(48, 50) =~= idx@.subrange(at + 48, at + 48 + 2));
            let codec = match codec_from_u16(codec_raw) {
                Some(c) => c,
                None => {
                    return Err(StoreError::Corrupt("unknown blob codec".to_string()));
                },
            };
            let entry = BlobIndexEntry { offset, raw_len, stored_len, codec };
            assert(decode_index_key(rec@) == hash@);
            assert(decode_index_entry(rec@) == entry);
            match self.find(&hash) {
                Some(i) => {
                    proof {
                        lemma_slots_map_update(self.hashes@, self.entries@, i as int, entry);
                        assert(self@.index.insert(hash@, entry).dom() =~= self@.index.dom());
                    }
                    self.entries[i] = entry;
                },
                None => {
                    proof {
                        lemma_slots_map_push(self.hashes@, self.entries@, hash, entry);
                    }
                    self.hashes.push(hash);
                    self.entries.push(entry);
                },
            }
            at += 52;
        }
    }

    /// Appends a blob to the image of the pack: header, stored bytes and
    /// checksum.
    fn write_pack_entry(&mut self, codec: BlobCodec, raw_len: u32, hash: &[u8; 32], stored: &[u8])
        requires
            stored@.len() <= u32::MAX,
        ensures
            final(self).pack@ == old(self).pack@ + blob_pack_bytes(
                codec,
                raw_len,
                hash@,
                stored@,
            ),
            final(self).idx == old(self).idx,
            final(self).hashes == old(self).hashes,
            final(self).entries == old(self).entries,
    {
        let start = self.pack.len();
        put_u32_le(&mut self.pack, BLOB_MAGIC);
        put_u16_le(&mut self.pack, BLOB_VERSION);
        put_u16_le(&mut self.pack, codec_to_u16(codec));
        put_u32_le(&mut self.pack, raw_len);
        put_u32_le(&mut self.pack, stored.len() as u32);
        self.pack.extend_from_slice(hash.as_slice());
        self.pack.extend_from_slice(stored);
        assert(self.pack@.subrange(start as int, self.pack@.len() as int) =~= blob_header_bytes(
            codec_code(codec),
            raw_len,
            stored@.len() as u32,
            hash@,
        ) + stored@);
        let crc = crc32(slice_subrange(self.pack.as_slice(), start, self.pack.len()));
        put_u32_le(&mut self.pack, crc);
        assert(self.pack@ =~= old(self).pack@ + blob_pack_bytes(codec, raw_len, hash@, stored@));
    }

    /// Appends a record to the image of the sidecar index.
    fn write_index_record(&mut self, hash: &[u8; 32], entry: &BlobIndexEntry)
        ensures
            final(self).idx@ == old(self).idx@ + index_record_bytes(hash@, *entry),
            final(self).pack == old(self).pack,
            final(self).hashes == old(self).hashes,
            final(self).entries == old(self).entries,
    {
        self.idx.extend_from_slice(hash.as_slice());
        put_u64_le(&mut self.idx, entry.offset);
        put_u32_le(&mut self.idx, entry.raw_len);
        put_u32_le(&mut self.idx, entry.stored_len);
        put_u16_le(&mut self.idx, codec_to_u16(entry.codec));
        put_u16_le(&mut self.idx, 0);
        assert(self.idx@ =~= old(self).idx@ + index_record_bytes(hash@, *entry));
    }

    /// Puts a blob under its hash, unless the store holds that hash already.
    ///
    /// A hash that is held gives its entry back and changes nothing. A new
    /// blob is stored as `stored_form` says, at the end of the pack, and gets
    /// a record at the end of the index; it then reads back as it was put,
    /// and every blob that read back before still does.
    ///
    /// Fails with `InvalidInput` where a new blob is longer than a length
    /// field can say; the store is then unchanged.
    pub fn put_if_absent(&mut self, hash: [u8; 32], raw_bytes: &[u8]) -> (r: Result<
        BlobIndexEntry,
        StoreError,
    >)
        requires
            old(self).wf(),
        ensures
            final(self).wf(),
            pack_agrees(old(self)@) ==> pack_agrees(final(self)@),
            forall|h: Seq<u8>|
                spec_get_blob(old(self)@, h) is Content ==> #[trigger] spec_get_blob(
                    final(self)@,
                    h,
                ) == spec_get_blob(old(self)@, h),
            if old(self)@.index.contains_key(hash@) {
                &&& r is Ok
                &&& r.unwrap() == old(self)@.index[hash@]
                &&& final(self)@ == old(self)@
            } else if raw_bytes@.len() > u32::MAX {
                &&& r is Err
                &&& r.unwrap_err().kind() == ErrorKind::InvalidInput
                &&& final(self)@ == old(self)@
            } else {
                &&& r is Ok
                &&& r.unwrap() == new_entry(old(self)@, raw_bytes@)
                &&& final(self)@ == view_after_put(old(self)@, hash@, raw_bytes@)
                &&& spec_get_blob(final(self)@, hash@) == BlobRead::Content(raw_bytes@)
            },
    {
        if let Some(i) = self.find(&hash) {
            return Ok(self.entries[i]);
        }
        if raw_bytes.len() > u32::MAX as usize {
            return Err(StoreError::InvalidInput("blob too large".to_string()));
        }
        let mut codec = BlobCodec::Raw;
        let mut compressed: Option<Vec<u8>> = None;
        if let Some(frame) = zstd_encode(raw_bytes, BLOB_ZSTD_LEVEL) {
            if frame.len() < raw_bytes.len() {
                compressed = Some(frame);
                codec = BlobCodec::Zstd;
            }
        }
        let raw_len = raw_bytes.len() as u32;
        let offset = self.pack.len() as u64;
        let stored_len = match &compressed {
            Some(frame) => frame.len() as u32,
            None => raw_len,
        };
        let entry = BlobIndexEntry { offset, raw_len, stored_len, codec };
        proof {
            self.lemma_put(hash, raw_bytes@);
        }
        match &compressed {
            Some(frame) => self.write_pack_entry(codec, raw_len, &hash, frame.as_slice()),
            None => self.write_pack_entry(codec, raw_len, &hash, raw_bytes),
        }
        self.write_index_record(&hash, &entry);
        self.hashes.push(hash);
        self.entries.push(entry);
        Ok(entry)
    }

    /// What putting a new blob does to a well-formed store: the store stays
    /// well-formed, the blob reads back, and so does every blob that did.
    proof fn lemma_put(&self, hash: [u8; 32], raw: Seq<u8>)
        requires
            self.wf(),
            self.pack@.len() <= u64::MAX,
            !self@.index.contains_key(hash@),
            raw.len() <= u32::MAX,
            stored_form(raw).0 == BlobCodec::Zstd ==> zstd_content(stored_form(raw).1) == Some(
                raw,
            ),
        ensures
            ({
                let w = view_after_put(self@, hash@, raw);
                let entry = new_entry(self@, raw);
                &&& distinct_hashes(self.hashes@.push(hash))
                &&& slots_map(self.hashes@.push(hash), self.entries@.push(entry)) == w.index
                &&& replay_index(w.index_log) == (w.index, w.index_log.len() as int)
                &&& w.index.dom().finite()
                &&& w.index.dom().len() == self.hashes@.len() + 1
                &&& spec_get_blob(w, hash@) == BlobRead::Content(raw)
                &&& forall|h: Seq<u8>|
                    spec_get_blob(self@, h) is Content ==> #[trigger] spec_get_blob(w, h)
                        == spec_get_blob(self@, h)
                &&& pack_agrees(self@) ==> pack_agrees(w)
            }),
    {
        let w = view_after_put(self@, hash@, raw);
        let entry = new_entry(self@, raw);
        let bytes = blob_pack_bytes(
            stored_form(raw).0,
            raw.len() as u32,
            hash@,
            stored_form(raw).1,
        );
        lemma_read_put_blob(self.pack@, hash@, raw);
        lemma_index_append(self.idx@, hash@, entry);
        lemma_slots_map_push(self.hashes@, self.entries@, hash, entry);
        assert(w.index.dom() =~= self@.index.dom().insert(hash@));
        assert forall|h: Seq<u8>| spec_get_blob(self@, h) is Content implies #[trigger] spec_get_blob(
            w,
            h,
        ) == spec_get_blob(self@, h) by {
            lemma_read_blob_stable(self.pack@, bytes, self@.index[h].offset as int, h);
        }
        if pack_agrees(self@) {
            assert forall|h: Seq<u8>| #[trigger] w.index.contains_key(h) implies blob_readable(
                w,
                h,
            ) by {
                if h != hash@ {
                    assert(self@.index.contains_key(h));
                    assert(blob_readable(self@, h));
                    assert(spec_get_blob(w, h) == spec_get_blob(self@, h));
                    assert(w.index[h] == self@.index[h]);
                } else {
                    assert(spec_get_blob(w, h) == BlobRead::Content(raw));
                    assert(w.index[h] == entry);
                }
            }
        }
    }

    /// The place of a hash in the index, if it is there.
    fn find(&self, hash: &[u8; 32]) -> (place: Option<usize>)
        requires
            self.hashes@.len() == self.entries@.len(),
            distinct_hashes(self.hashes@),
        ensures
            match place {
                Some(i) => i < self.hashes@.len() && self.hashes@[i as int]@ == hash@
                    && self@.index.contains_key(hash@) && self@.index[hash@]
                    == self.entries@[i as int],
                None => !self@.index.contains_key(hash@),
            },
    {
        let mut i: usize = 0;
        while i < self.hashes.len()
            invariant
                i <= self.hashes@.len(),
                self.hashes@.len() == self.entries@.len(),
                distinct_hashes(self.hashes@),
                forall|j: int| 0 <= j < i ==> self.hashes@[j]@ != hash@,
            decreases self.hashes@.len() - i,
        {
            if hash_eq(&self.hashes[i], hash) {
                proof {
                    lemma_slots_map_at(self.hashes@, self.entries@, i as int);
                }
                return Some(i);
            }
            i += 1;
        }
        assert forall|j: int| !slot_holds(self.hashes@, hash@, j) by {}
        None
    }

    /// Whether the store holds a blob with this hash.
    pub fn contains(&self, hash: &[u8; 32]) -> (held: bool)
        requires
            self.wf(),
        ensures
            held == self@.index.contains_key(hash@),
    {
        self.find(hash).is_some()
    }

    /// The raw length of the blob with this hash, from the index alone.
    pub fn raw_len(&self, hash: &[u8; 32]) -> (len: Option<u32>)
        requires
            self.wf(),
        ensures
            len == if self@.index.contains_key(hash@) {
                Some(self@.index[hash@].raw_len)
            } else {
                None
            },
    {
        match self.find(hash) {
            Some(i) => Some(self.entries[i].raw_len),
            None => None,
        }
    }

    /// The stored length of the blob with this hash, from the index alone.
    pub fn stored_len(&self, hash: &[u8; 32]) -> (len: Option<u32>)
        requires
            self.wf(),
        ensures
            len == if self@.index.contains_key(hash@) {
                Some(self@.index[hash@].stored_len)
            } else {
                None
            },
    {
        match self.find(hash) {
            Some(i) => Some(self.entries[i].stored_len),
            None => None,
        }
    }

    /// The number of blobs, and the sizes of the two images.
    pub fn stats(&self) -> (stats: BlobStoreStats)
        requires
            self.wf(),
        ensures
            stats.blobs_total == self@.index.dom().len(),
            stats.pack_bytes == self@.pack.len(),
            stats.idx_bytes == self@.index_log.len(),
    {
        BlobStoreStats {
            blobs_total: self.hashes.len(),
            pack_bytes: self.pack.len() as u64,
            idx_bytes: self.idx.len() as u64,
        }
    }

    /// The image of the pack, for the host to persist.
    pub fn pack_image(&self) -> (bytes: &Vec<u8>)
        ensures
            bytes@ == self@.pack,
    {
        &self.pack
    }

    /// The image of the sidecar index, for the host to persist.
    pub fn index_image(&self) -> (bytes: &Vec<u8>)
        ensures
            bytes@ == self@.index_log,
    {
        &self.idx
    }

    /// The bytes of the blob with this hash: read from the pack, checked and
    /// decompressed.
    ///
    /// Fails with `NotFound` where the index does not hold the hash, and as
    /// `read_blob` says where the pack does not hold what the index promises.
    pub fn get(&self, hash: &[u8; 32]) -> (r: Result<Vec<u8>, StoreError>)
        requires
            self.wf(),
        ensures
            match r {
                Ok(raw) => spec_get_blob(self@, hash@) == BlobRead::Content(raw@),
                Err(e) => spec_get_blob(self@, hash@) == BlobRead::Failure(e.kind()),
            },
    {
        let offset = match self.find(hash) {
            Some(i) => self.entries[i].offset,
            None => {
                return Err(StoreError::NotFound("blob".to_string()));
            },
        };
        read_blob_at(self.pack.as_slice(), offset, hash)
    }
}

} // verus!
