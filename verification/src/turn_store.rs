//! The turn store: an append-only log of turns, a metadata side-file, an
//! offset index and a table of context heads, each held as the byte image of
//! its file and replayed when the store is opened.

use crate::error::{ErrorKind, StoreError};
use crate::replay::{lemma_replay_cut, lemma_replay_extend, next_is_local, replay_from, NextEntry};
use crate::wire::{
    crc32, crc32_checksum, get_hash, get_u32_le, get_u64_le, hash32, lemma_hash32_of_view,
    now_unix_ms, put_u32_le, put_u64_le, u32_at, u64_at,
};
use std::collections::HashMap;
use vstd::bytes::{
    lemma_auto_spec_u32_to_from_le_bytes, lemma_auto_spec_u64_to_from_le_bytes,
    spec_u32_to_le_bytes, spec_u64_to_le_bytes,
};
use vstd::prelude::*;
use vstd::slice::slice_subrange;

verus! {

/// One append in a context.
#[derive(Debug, Clone, Copy)]
pub struct TurnRecord {
    pub turn_id: u64,
    pub parent_turn_id: u64,
    pub depth: u32,
    pub codec: u32,
    pub type_tag: u64,
    pub payload_hash: [u8; 32],
    pub flags: u32,
    pub created_at_unix_ms: u64,
}

/// The current tip of a context.
#[derive(Debug, Clone, Copy)]
pub struct ContextHead {
    pub context_id: u64,
    pub head_turn_id: u64,
    pub head_depth: u32,
    pub created_at_unix_ms: u64,
    pub flags: u32,
}

/// The length of a turn record in the log: 76 bytes and their CRC-32.
pub const TURN_RECORD_LEN: usize = 80;

/// The length of a head record in the table: 32 bytes and their CRC-32.
pub const HEAD_RECORD_LEN: usize = 36;

/// The bytes of a turn record that its checksum covers.
pub open spec fn turn_body_bytes(r: TurnRecord) -> Seq<u8> {
    spec_u64_to_le_bytes(r.turn_id) + spec_u64_to_le_bytes(r.parent_turn_id)
        + spec_u32_to_le_bytes(r.depth) + spec_u32_to_le_bytes(r.codec) + spec_u64_to_le_bytes(
        r.type_tag,
    ) + r.payload_hash@ + spec_u32_to_le_bytes(r.flags) + spec_u64_to_le_bytes(
        r.created_at_unix_ms,
    )
}

/// A turn record as it stands in the log: the fields in little-endian order,
/// then the CRC-32 of those bytes.
pub open spec fn turn_record_bytes(r: TurnRecord) -> Seq<u8> {
    turn_body_bytes(r) + spec_u32_to_le_bytes(crc32_checksum(turn_body_bytes(r)))
}

/// The turn record that the fields of an 80-byte frame spell.
pub open spec fn decode_turn(frame: Seq<u8>) -> TurnRecord {
    TurnRecord {
        turn_id: u64_at(frame, 0),
        parent_turn_id: u64_at(frame, 8),
        depth: u32_at(frame, 16),
        codec: u32_at(frame, 20),
        type_tag: u64_at(frame, 24),
        payload_hash: hash32(frame.subrange(32, 64)),
        flags: u32_at(frame, 64),
        created_at_unix_ms: u64_at(frame, 68),
    }
}

/// Whether an 80-byte frame ends in the CRC-32 of its first 76 bytes.
pub open spec fn turn_frame_ok(frame: Seq<u8>) -> bool {
    frame.len() == 80 && u32_at(frame, 76) == crc32_checksum(frame.subrange(0, 76))
}

/// Where the turn record at `at` ends, if a whole record with a matching
/// checksum stands there.
pub open spec fn turn_next(log: Seq<u8>, at: int) -> Option<int> {
    if 0 <= at && at + 80 <= log.len() && turn_frame_ok(log.subrange(at, at + 80)) {
        Some(at + 80)
    } else {
        None
    }
}

/// A record's bytes are a valid frame, and decode to the record.
pub proof fn lemma_turn_record_roundtrip(r: TurnRecord)
    ensures
        turn_body_bytes(r).len() == 76,
        turn_record_bytes(r).len() == 80,
        turn_frame_ok(turn_record_bytes(r)),
        decode_turn(turn_record_bytes(r)) == r,
{
    lemma_auto_spec_u32_to_from_le_bytes();
    lemma_auto_spec_u64_to_from_le_bytes();
    let b = turn_record_bytes(r);
    let body = turn_body_bytes(r);
    assert(body.len() == 76);
    assert(b.subrange(0, 76) =~= body);
    assert(b.subrange(76, 80) =~= spec_u32_to_le_bytes(crc32_checksum(body)));
    assert(b.subrange(0, 8) =~= spec_u64_to_le_bytes(r.turn_id));
    assert(b.subrange(8, 16) =~= spec_u64_to_le_bytes(r.parent_turn_id));
    assert(b.subrange(16, 20) =~= spec_u32_to_le_bytes(r.depth));
    assert(b.subrange(20, 24) =~= spec_u32_to_le_bytes(r.codec));
    assert(b.subrange(24, 32) =~= spec_u64_to_le_bytes(r.type_tag));
    assert(b.subrange(32, 64) =~= r.payload_hash@);
    assert(b.subrange(64, 68) =~= spec_u32_to_le_bytes(r.flags));
    assert(b.subrange(68, 76) =~= spec_u64_to_le_bytes(r.created_at_unix_ms));
    lemma_hash32_of_view(r.payload_hash);
}

/// Encodes a turn record as it stands in the log.
pub fn encode_turn_record(record: &TurnRecord) -> (buf: Vec<u8>)
    ensures
        buf@ == turn_record_bytes(*record),
        buf@.len() == 80,
{
    let mut buf: Vec<u8> = Vec::with_capacity(80);
    put_u64_le(&mut buf, record.turn_id);
    put_u64_le(&mut buf, record.parent_turn_id);
    put_u32_le(&mut buf, record.depth);
    put_u32_le(&mut buf, record.codec);
    put_u64_le(&mut buf, record.type_tag);
    buf.extend_from_slice(record.payload_hash.as_slice());
    put_u32_le(&mut buf, record.flags);
    put_u64_le(&mut buf, record.created_at_unix_ms);
    assert(buf@ =~= turn_body_bytes(*record));
    let crc = crc32(buf.as_slice());
    put_u32_le(&mut buf, crc);
    proof {
        lemma_turn_record_roundtrip(*record);
    }
    buf
}

/// Reads the turn record at `at` of a log image.
///
/// Fails with `Io` where fewer than 80 bytes are left, and with `Corrupt`
/// where the checksum does not match.
pub fn read_turn_record(log: &[u8], at: usize) -> (r: Result<TurnRecord, StoreError>)
    requires
        at <= log.len(),
    ensures
        match r {
            Ok(rec) => turn_next(log@, at as int) == Some(at + 80) && rec == decode_turn(
                log@.subrange(at as int, at + 80),
            ),
            Err(e) => turn_next(log@, at as int) is None && e.kind() == (if at + 80
                <= log.len() {
                ErrorKind::Corrupt
            } else {
                ErrorKind::Io
            }),
        },
{
    if log.len() - at < 80 {
        return Err(StoreError::Io("unexpected end of file".to_string()));
    }
    let frame = slice_subrange(log, at, at + 80);
    let turn_id = get_u64_le(frame, 0);
    let parent_turn_id = get_u64_le(frame, 8);
    let depth = get_u32_le(frame, 16);
    let codec = get_u32_le(frame, 20);
    let type_tag = get_u64_le(frame, 24);
    let payload_hash = get_hash(frame, 32);
    let flags = get_u32_le(frame, 64);
    let created_at_unix_ms = get_u64_le(frame, 68);
    let crc = get_u32_le(frame, 76);
    let actual_crc = crc32(slice_subrange(frame, 0, 76));
    if crc != actual_crc {
        return Err(StoreError::Corrupt("turn crc mismatch".to_string()));
    }
    Ok(
        TurnRecord {
            turn_id,
            parent_turn_id,
            depth,
            codec,
            type_tag,
            payload_hash,
            flags,
            created_at_unix_ms,
        },
    )
}

/// The metadata that is recorded beside a turn.
#[derive(Debug)]
pub struct TurnMeta {
    pub declared_type_id: String,
    pub declared_type_version: u32,
    pub encoding: u32,
    pub compression: u32,
    pub uncompressed_len: u32,
}

/// What a `TurnMeta` holds, with the type id as a sequence of characters.
pub ghost struct TurnMetaView {
    pub declared_type_id: Seq<char>,
    pub declared_type_version: u32,
    pub encoding: u32,
    pub compression: u32,
    pub uncompressed_len: u32,
}

impl View for TurnMeta {
    type V = TurnMetaView;

    open spec fn view(&self) -> TurnMetaView {
        TurnMetaView {
            declared_type_id: self.declared_type_id@,
            declared_type_version: self.declared_type_version,
            encoding: self.encoding,
            compression: self.compression,
            uncompressed_len: self.uncompressed_len,
        }
    }
}

impl Clone for TurnMeta {
    fn clone(&self) -> (copy: Self)
        ensures
            copy@ == self@,
    {
        TurnMeta {
            declared_type_id: self.declared_type_id.clone(),
            declared_type_version: self.declared_type_version,
            encoding: self.encoding,
            compression: self.compression,
            uncompressed_len: self.uncompressed_len,
        }
    }
}

/// A metadata entry as it stands in the side-file: the turn id, the length
/// of the type id and its UTF-8 bytes, then the four numbers.
pub open spec fn meta_entry_bytes(turn_id: u64, meta: TurnMetaView) -> Seq<u8> {
    let id = vstd::utf8::encode_utf8(meta.declared_type_id);
    spec_u64_to_le_bytes(turn_id) + spec_u32_to_le_bytes(id.len() as u32) + id
        + spec_u32_to_le_bytes(meta.declared_type_version) + spec_u32_to_le_bytes(meta.encoding)
        + spec_u32_to_le_bytes(meta.compression) + spec_u32_to_le_bytes(meta.uncompressed_len)
}

/// Where the metadata entry at `at` ends, if all of its bytes are there.
pub open spec fn meta_entry_end(log: Seq<u8>, at: int) -> Option<int> {
    if 0 <= at && at + 12 <= log.len() && at + 28 + u32_at(log, at + 8) <= log.len() {
        Some(at + 28 + u32_at(log, at + 8))
    } else {
        None
    }
}

/// Whether a whole metadata entry stands at `at` whose type id is not UTF-8.
pub open spec fn meta_corrupt_at(log: Seq<u8>, at: int) -> bool {
    meta_entry_end(log, at) is Some && !vstd::utf8::valid_utf8(
        log.subrange(at + 12, at + 12 + u32_at(log, at + 8)),
    )
}

/// Where the metadata entry at `at` ends, if a whole entry with a UTF-8 type
/// id stands there.
pub open spec fn meta_next(log: Seq<u8>, at: int) -> Option<int> {
    if meta_corrupt_at(log, at) {
        None
    } else {
        meta_entry_end(log, at)
    }
}

/// The turn id that a metadata entry is keyed by.
pub open spec fn decode_meta_key(entry: Seq<u8>) -> u64 {
    u64_at(entry, 0)
}

/// The metadata that the fields of an entry spell.
pub open spec fn decode_meta(entry: Seq<u8>) -> TurnMetaView {
    let n = u32_at(entry, 8) as int;
    TurnMetaView {
        declared_type_id: vstd::utf8::decode_utf8(entry.subrange(12, 12 + n)),
        declared_type_version: u32_at(entry, 12 + n),
        encoding: u32_at(entry, 16 + n),
        compression: u32_at(entry, 20 + n),
        uncompressed_len: u32_at(entry, 24 + n),
    }
}

/// An entry's bytes are a whole valid entry, and decode to what was encoded.
pub proof fn lemma_meta_entry_roundtrip(turn_id: u64, meta: TurnMetaView)
    requires
        vstd::utf8::encode_utf8(meta.declared_type_id).len() <= u32::MAX,
    ensures
        ({
            let e = meta_entry_bytes(turn_id, meta);
            &&& e.len() == 28 + vstd::utf8::encode_utf8(meta.declared_type_id).len()
            &&& meta_next(e, 0) == Some(e.len() as int)
            &&& decode_meta_key(e) == turn_id
            &&& decode_meta(e) == meta
        }),
{
    lemma_auto_spec_u32_to_from_le_bytes();
    lemma_auto_spec_u64_to_from_le_bytes();
    broadcast use vstd::utf8::encode_utf8_valid_utf8, vstd::utf8::encode_utf8_decode_utf8;

    let id = vstd::utf8::encode_utf8(meta.declared_type_id);
    let n = id.len() as int;
    let e = meta_entry_bytes(turn_id, meta);
    assert(e.len() == 28 + n);
    assert(e.subrange(0, 8) =~= spec_u64_to_le_bytes(turn_id));
    assert(e.subrange(8, 12) =~= spec_u32_to_le_bytes(n as u32));
    assert(u32_at(e, 8) == n);
    assert(e.subrange(12, 12 + n) =~= id);
    assert(e.subrange(12 + n, 16 + n) =~= spec_u32_to_le_bytes(meta.declared_type_version));
    assert(e.subrange(16 + n, 20 + n) =~= spec_u32_to_le_bytes(meta.encoding));
    assert(e.subrange(20 + n, 24 + n) =~= spec_u32_to_le_bytes(meta.compression));
    assert(e.subrange(24 + n, 28 + n) =~= spec_u32_to_le_bytes(meta.uncompressed_len));
    assert(decode_meta(e).declared_type_id == meta.declared_type_id);
}

/// The bytes of a head record that its checksum covers.
pub open spec fn head_body_bytes(h: ContextHead) -> Seq<u8> {
    spec_u64_to_le_bytes(h.context_id) + spec_u64_to_le_bytes(h.head_turn_id)
        + spec_u32_to_le_bytes(h.head_depth) + spec_u32_to_le_bytes(h.flags)
        + spec_u64_to_le_bytes(h.created_at_unix_ms)
}

/// A head record as it stands in the table: the fields in little-endian
/// order, then the CRC-32 of those bytes.
pub open spec fn head_record_bytes(h: ContextHead) -> Seq<u8> {
    head_body_bytes(h) + spec_u32_to_le_bytes(crc32_checksum(head_body_bytes(h)))
}

/// The head that the fields of a 36-byte frame spell.
pub open spec fn decode_head(frame: Seq<u8>) -> ContextHead {
    ContextHead {
        context_id: u64_at(frame, 0),
        head_turn_id: u64_at(frame, 8),
        head_depth: u32_at(frame, 16),
        flags: u32_at(frame, 20),
        created_at_unix_ms: u64_at(frame, 24),
    }
}

/// Whether a 36-byte frame ends in the CRC-32 of its first 32 bytes.
pub open spec fn head_frame_ok(frame: Seq<u8>) -> bool {
    frame.len() == 36 && u32_at(frame, 32) == crc32_checksum(frame.subrange(0, 32))
}

/// Where the head record at `at` ends, if a whole record with a matching
/// checksum stands there.
pub open spec fn head_next(log: Seq<u8>, at: int) -> Option<int> {
    if 0 <= at && at + 36 <= log.len() && head_frame_ok(log.subrange(at, at + 36)) {
        Some(at + 36)
    } else {
        None
    }
}

/// A head's bytes are a valid frame, and decode to the head.
pub proof fn lemma_head_record_roundtrip(h: ContextHead)
    ensures
        head_body_bytes(h).len() == 32,
        head_record_bytes(h).len() == 36,
        head_frame_ok(head_record_bytes(h)),
        decode_head(head_record_bytes(h)) == h,
{
    lemma_auto_spec_u32_to_from_le_bytes();
    lemma_auto_spec_u64_to_from_le_bytes();
    let b = head_record_bytes(h);
    let body = head_body_bytes(h);
    assert(body.len() == 32);
    assert(b.subrange(0, 32) =~= body);
    assert(b.subrange(32, 36) =~= spec_u32_to_le_bytes(crc32_checksum(body)));
    assert(b.subrange(0, 8) =~= spec_u64_to_le_bytes(h.context_id));
    assert(b.subrange(8, 16) =~= spec_u64_to_le_bytes(h.head_turn_id));
    assert(b.subrange(16, 20) =~= spec_u32_to_le_bytes(h.head_depth));
    assert(b.subrange(20, 24) =~= spec_u32_to_le_bytes(h.flags));
    assert(b.subrange(24, 32) =~= spec_u64_to_le_bytes(h.created_at_unix_ms));
}

/// Encodes a head record as it stands in the table.
pub fn encode_head_record(head: &ContextHead) -> (buf: Vec<u8>)
    ensures
        buf@ == head_record_bytes(*head),
        buf@.len() == 36,
{
    let mut buf: Vec<u8> = Vec::with_capacity(36);
    put_u64_le(&mut buf, head.context_id);
    put_u64_le(&mut buf, head.head_turn_id);
    put_u32_le(&mut buf, head.head_depth);
    put_u32_le(&mut buf, head.flags);
    put_u64_le(&mut buf, head.created_at_unix_ms);
    assert(buf@ =~= head_body_bytes(*head));
    let crc = crc32(buf.as_slice());
    put_u32_le(&mut buf, crc);
    proof {
        lemma_head_record_roundtrip(*head);
    }
    buf
}

/// Reads the head record at `at` of a table image, if a whole record with a
/// matching checksum stands there.
pub fn read_head_record(log: &[u8], at: usize) -> (r: Option<ContextHead>)
    requires
        at <= log.len(),
    ensures
        match r {
            Some(h) => head_next(log@, at as int) == Some(at + 36) && h == decode_head(
                log@.subrange(at as int, at + 36),
            ),
            None => head_next(log@, at as int) is None,
        },
{
    if log.len() - at < 36 {
        return None;
    }
    let frame = slice_subrange(log, at, at + 36);
    let context_id = get_u64_le(frame, 0);
    let head_turn_id = get_u64_le(frame, 8);
    let head_depth = get_u32_le(frame, 16);
    let flags = get_u32_le(frame, 20);
    let created_at_unix_ms = get_u64_le(frame, 24);
    let crc = get_u32_le(frame, 32);
    let actual_crc = crc32(slice_subrange(frame, 0, 32));
    if crc != actual_crc {
        return None;
    }
    Some(ContextHead { context_id, head_turn_id, head_depth, created_at_unix_ms, flags })
}

/// What the turn log replays to: the turns by id, and the image of the
/// offset index that is rebuilt beside them.
pub ghost struct TurnLogState {
    pub turns: Map<u64, TurnRecord>,
    pub index: Seq<u8>,
}

/// Takes one frame of the turn log into the state: the record is filed under
/// its id, and the index gets the pair of its id and its offset in the log.
pub open spec fn turn_step(acc: TurnLogState, frame: Seq<u8>) -> TurnLogState {
    let r = decode_turn(frame);
    TurnLogState {
        turns: acc.turns.insert(r.turn_id, r),
        index: acc.index + spec_u64_to_le_bytes(r.turn_id) + spec_u64_to_le_bytes(
            (acc.index.len() * 5) as u64,
        ),
    }
}

/// Takes one metadata entry into the map.
pub open spec fn meta_step(acc: Map<u64, TurnMetaView>, entry: Seq<u8>) -> Map<u64, TurnMetaView> {
    acc.insert(decode_meta_key(entry), decode_meta(entry))
}

/// Takes one head record into the map: a later head of a context replaces
/// an earlier one.
pub open spec fn head_step(acc: Map<u64, ContextHead>, frame: Seq<u8>) -> Map<u64, ContextHead> {
    let h = decode_head(frame);
    acc.insert(h.context_id, h)
}

/// `turn_next`, as a function value.
pub open spec fn turn_next_fn() -> NextEntry {
    |log: Seq<u8>, at: int| turn_next(log, at)
}

/// `turn_step`, as a function value.
pub open spec fn turn_step_fn() -> spec_fn(TurnLogState, Seq<u8>) -> TurnLogState {
    |acc: TurnLogState, frame: Seq<u8>| turn_step(acc, frame)
}

/// `meta_next`, as a function value.
pub open spec fn meta_next_fn() -> NextEntry {
    |log: Seq<u8>, at: int| meta_next(log, at)
}

/// `meta_step`, as a function value.
pub open spec fn meta_step_fn() -> spec_fn(Map<u64, TurnMetaView>, Seq<u8>) -> Map<
    u64,
    TurnMetaView,
> {
    |acc: Map<u64, TurnMetaView>, entry: Seq<u8>| meta_step(acc, entry)
}

/// `head_next`, as a function value.
pub open spec fn head_next_fn() -> NextEntry {
    |log: Seq<u8>, at: int| head_next(log, at)
}

/// `head_step`, as a function value.
pub open spec fn head_step_fn() -> spec_fn(Map<u64, ContextHead>, Seq<u8>) -> Map<
    u64,
    ContextHead,
> {
    |acc: Map<u64, ContextHead>, frame: Seq<u8>| head_step(acc, frame)
}

/// The state that a turn log image replays to, and the length of its valid
/// prefix.
pub open spec fn replay_turn_log(log: Seq<u8>) -> (TurnLogState, int) {
    replay_from(
        log,
        turn_next_fn(),
        turn_step_fn(),
        0,
        TurnLogState { turns: Map::empty(), index: Seq::empty() },
    )
}

/// The metadata that a side-file image replays to, and the length of its
/// valid prefix.
pub open spec fn replay_meta(log: Seq<u8>) -> (Map<u64, TurnMetaView>, int) {
    replay_from(log, meta_next_fn(), meta_step_fn(), 0, Map::empty())
}

/// The heads that a head table image replays to, and the length of its valid
/// prefix.
pub open spec fn replay_heads(log: Seq<u8>) -> (Map<u64, ContextHead>, int) {
    replay_from(log, head_next_fn(), head_step_fn(), 0, Map::empty())
}

/// Whether every turn is filed under its own id.
pub open spec fn keyed_by_id(turns: Map<u64, TurnRecord>) -> bool {
    forall|k: u64| turns.contains_key(k) ==> (#[trigger] turns[k]).turn_id == k
}

/// Whether every head is filed under the id of its context.
pub open spec fn heads_keyed(heads: Map<u64, ContextHead>) -> bool {
    forall|c: u64| heads.contains_key(c) ==> (#[trigger] heads[c]).context_id == c
}

/// Replaying a head table files every head under the id of its context.
pub proof fn lemma_heads_keyed(log: Seq<u8>, at: int, acc: Map<u64, ContextHead>)
    requires
        0 <= at <= log.len(),
        heads_keyed(acc),
    ensures
        heads_keyed(replay_from(log, head_next_fn(), head_step_fn(), at, acc).0),
    decreases log.len() - at,
{
    match head_next_fn()(log, at) {
        Some(end) => {
            if at < end && end <= log.len() {
                lemma_heads_keyed(log, end, head_step(acc, log.subrange(at, end)));
            }
        },
        None => {},
    }
}

/// Whether `largest` is the largest key of the map, or 0 where it is empty.
pub open spec fn is_largest_key<V>(m: Map<u64, V>, largest: u64) -> bool {
    &&& forall|k: u64| #[trigger] m.contains_key(k) ==> k <= largest
    &&& largest == 0 || m.contains_key(largest)
}

/// Whether a list names every context that has a head, each once.
pub open spec fn order_ok(heads: Map<u64, ContextHead>, order: Seq<u64>) -> bool {
    &&& order.no_duplicates()
    &&& forall|c: u64| heads.contains_key(c) <==> order.contains(c)
}

/// The list of contexts with one more, where it is new.
pub open spec fn with_context(heads: Map<u64, ContextHead>, order: Seq<u64>, c: u64) -> Seq<u64> {
    if heads.contains_key(c) {
        order
    } else {
        order.push(c)
    }
}

/// A list that names every context stays one when a context gets a head.
pub proof fn lemma_order_ok_insert(
    heads: Map<u64, ContextHead>,
    order: Seq<u64>,
    c: u64,
    head: ContextHead,
)
    requires
        order_ok(heads, order),
    ensures
        order_ok(heads.insert(c, head), with_context(heads, order, c)),
{
    let next = with_context(heads, order, c);
    if heads.contains_key(c) {
        assert forall|x: u64| heads.insert(c, head).contains_key(x) <==> next.contains(x) by {
            if x == c {
                assert(order.contains(c));
            }
        }
    } else {
        assert(!order.contains(c));
        assert forall|i: int, j: int| 0 <= i < next.len() && 0 <= j < next.len() && i != j implies next[i]
            != next[j] by {
            if i < order.len() && j < order.len() {
                assert(order[i] != order[j]);
            } else if i < order.len() {
                assert(order.contains(order[i]));
            } else if j < order.len() {
                assert(order.contains(order[j]));
            }
        }
        assert forall|x: u64| heads.insert(c, head).contains_key(x) <==> next.contains(x) by {
            if x == c {
                assert(next[order.len() as int] == c);
            } else if heads.contains_key(x) {
                assert(order.contains(x));
                let i = choose|i: int| 0 <= i < order.len() && order[i] == x;
                assert(next[i] == x);
            } else if next.contains(x) {
                let i = choose|i: int| 0 <= i < next.len() && next[i] == x;
                assert(order[i] == x);
                assert(order.contains(x));
            }
        }
    }
}

/// The views of the values of a metadata map.
pub open spec fn meta_views(m: Map<u64, TurnMeta>) -> Map<u64, TurnMetaView> {
    Map::new(|k: u64| m.contains_key(k), |k: u64| m[k]@)
}

/// Replays a turn log image: the turns by id, the rebuilt index image, and
/// the length of the valid prefix.
pub fn load_turns(log: &Vec<u8>) -> (r: (HashMap<u64, TurnRecord>, Vec<u8>, usize, u64))
    ensures
        replay_turn_log(log@) == (TurnLogState { turns: r.0@, index: r.1@ }, r.2 as int),
        r.2 <= log.len(),
        r.1@.len() * 5 == r.2,
        keyed_by_id(r.0@),
        is_largest_key(r.0@, r.3),
{
    let mut turns: HashMap<u64, TurnRecord> = HashMap::new();
    let mut idx: Vec<u8> = Vec::new();
    let mut at: usize = 0;
    let mut largest: u64 = 0;
    loop
        invariant
            at <= log.len(),
            idx@.len() * 5 == at,
            keyed_by_id(turns@),
            is_largest_key(turns@, largest),
            replay_from(
                log@,
                turn_next_fn(),
                turn_step_fn(),
                at as int,
                TurnLogState { turns: turns@, index: idx@ },
            ) == replay_turn_log(log@),
        decreases log.len() - at,
    {
        match read_turn_record(log.as_slice(), at) {
            Ok(rec) => {
                proof {
                    lemma_auto_spec_u64_to_from_le_bytes();
                }
                turns.insert(rec.turn_id, rec);
                if rec.turn_id > largest {
                    largest = rec.turn_id;
                }
                put_u64_le(&mut idx, rec.turn_id);
                put_u64_le(&mut idx, at as u64);
                at += 80;
            },
            Err(_) => {
                return (turns, idx, at, largest);
            },
        }
    }
}

/// Reads the metadata entry at `at` of a side-file image.
///
/// Gives `Ok(None)` where the entry is incomplete, and fails with `Corrupt`
/// where its type id is not UTF-8.
pub fn read_meta_entry(log: &[u8], at: usize) -> (r: Result<
    Option<(u64, TurnMeta, usize)>,
    StoreError,
>)
    requires
        at <= log.len(),
    ensures
        match r {
            Ok(Some((turn_id, meta, end))) => {
                &&& meta_next(log@, at as int) == Some(end as int)
                &&& at < end <= log.len()
                &&& turn_id == decode_meta_key(log@.subrange(at as int, end as int))
                &&& meta@ == decode_meta(log@.subrange(at as int, end as int))
            },
            Ok(None) => meta_entry_end(log@, at as int) is None,
            Err(e) => meta_corrupt_at(log@, at as int) && e.kind() == ErrorKind::Corrupt,
        },
{
    let left = log.len() - at;
    if left < 12 {
        return Ok(None);
    }
    let turn_id = get_u64_le(log, at);
    let n32 = get_u32_le(log, at + 8);
    if n32 as u64 > (left - 12) as u64 {
        return Ok(None);
    }
    let n = n32 as usize;
    if left - 12 - n < 16 {
        return Ok(None);
    }
    let end = at + 28 + n;
    let id_bytes = crate::wire::slice_to_vec(slice_subrange(log, at + 12, at + 12 + n));
    let ghost entry = log@.subrange(at as int, end as int);
    assert(entry.subrange(0, 8) =~= log@.subrange(at as int, at + 8));
    assert(entry.subrange(8, 12) =~= log@.subrange(at + 8, at + 12));
    assert(entry.subrange(12, 12 + n) =~= log@.subrange(at + 12, at + 12 + n));
    assert(entry.subrange(12 + n, 16 + n) =~= log@.subrange(at + 12 + n, at + 16 + n));
    assert(entry.subrange(16 + n, 20 + n) =~= log@.subrange(at + 16 + n, at + 20 + n));
    assert(entry.subrange(20 + n, 24 + n) =~= log@.subrange(at + 20 + n, at + 24 + n));
    assert(entry.subrange(24 + n, 28 + n) =~= log@.subrange(at + 24 + n, at + 28 + n));
    let declared_type_id = match crate::wire::string_from_utf8(id_bytes) {
        Some(text) => text,
        None => {
            return Err(StoreError::Corrupt("invalid type id utf8".to_string()));
        },
    };
    let declared_type_version = get_u32_le(log, at + 12 + n);
    let encoding = get_u32_le(log, at + 16 + n);
    let compression = get_u32_le(log, at + 20 + n);
    let uncompressed_len = get_u32_le(log, at + 24 + n);
    Ok(
        Some(
            (
                turn_id,
                TurnMeta {
                    declared_type_id,
                    declared_type_version,
                    encoding,
                    compression,
                    uncompressed_len,
                },
                end,
            ),
        ),
    )
}

/// Replays a metadata side-file image: the metadata by turn id and the
/// length of the valid prefix.
///
/// Fails with `Corrupt` where the first entry that does not replay is whole
/// but holds a type id that is not UTF-8.
pub fn load_meta(log: &Vec<u8>) -> (r: Result<(HashMap<u64, TurnMeta>, usize), StoreError>)
    ensures
        match r {
            Ok((metas, valid_len)) => {
                &&& replay_meta(log@) == (meta_views(metas@), valid_len as int)
                &&& !meta_corrupt_at(log@, replay_meta(log@).1)
                &&& valid_len <= log.len()
            },
            Err(e) => e.kind() == ErrorKind::Corrupt && meta_corrupt_at(
                log@,
                replay_meta(log@).1,
            ),
        },
{
    let mut metas: HashMap<u64, TurnMeta> = HashMap::new();
    let mut at: usize = 0;
    assert(meta_views(metas@) =~= Map::empty());
    loop
        invariant
            at <= log.len(),
            replay_from(log@, meta_next_fn(), meta_step_fn(), at as int, meta_views(metas@))
                == replay_meta(log@),
        decreases log.len() - at,
    {
        match read_meta_entry(log.as_slice(), at) {
            Ok(Some((turn_id, meta, end))) => {
                let ghost before = metas@;
                metas.insert(turn_id, meta);
                assert(meta_views(metas@) =~= meta_step(
                    meta_views(before),
                    log@.subrange(at as int, end as int),
                ));
                at = end;
            },
            Ok(None) => {
                return Ok((metas, at));
            },
            Err(e) => {
                return Err(e);
            },
        }
    }
}

/// Replays a head table image: the latest head of each context and the
/// length of the valid prefix.
pub fn load_heads(log: &Vec<u8>) -> (r: (HashMap<u64, ContextHead>, usize, u64, Vec<u64>))
    ensures
        replay_heads(log@) == (r.0@, r.1 as int),
        r.1 <= log.len(),
        is_largest_key(r.0@, r.2),
        order_ok(r.0@, r.3@),
{
    let mut heads: HashMap<u64, ContextHead> = HashMap::new();
    let mut order: Vec<u64> = Vec::new();
    let mut at: usize = 0;
    let mut largest: u64 = 0;
    loop
        invariant
            at <= log.len(),
            is_largest_key(heads@, largest),
            order_ok(heads@, order@),
            replay_from(log@, head_next_fn(), head_step_fn(), at as int, heads@) == replay_heads(
                log@,
            ),
        decreases log.len() - at,
    {
        match read_head_record(log.as_slice(), at) {
            Some(head) => {
                proof {
                    lemma_order_ok_insert(heads@, order@, head.context_id, head);
                }
                if !heads.contains_key(&head.context_id) {
                    order.push(head.context_id);
                }
                heads.insert(head.context_id, head);
                if head.context_id > largest {
                    largest = head.context_id;
                }
                at += 36;
            },
            None => {
                return (heads, at, largest, order);
            },
        }
    }
}

proof fn lemma_turn_next_local(log: Seq<u8>, ext: Seq<u8>)
    ensures
        next_is_local(turn_next_fn(), log, ext),
{
    assert forall|a: int| 0 <= a && a + 80 <= log.len() implies #[trigger] turn_next_fn()(
        log + ext,
        a,
    ) == turn_next_fn()(log, a) by {
        assert((log + ext).subrange(a, a + 80) =~= log.subrange(a, a + 80));
    }
}

proof fn lemma_head_next_local(log: Seq<u8>, ext: Seq<u8>)
    ensures
        next_is_local(head_next_fn(), log, ext),
{
    assert forall|a: int| 0 <= a && a + 36 <= log.len() implies #[trigger] head_next_fn()(
        log + ext,
        a,
    ) == head_next_fn()(log, a) by {
        assert((log + ext).subrange(a, a + 36) =~= log.subrange(a, a + 36));
    }
}

proof fn lemma_meta_next_local(log: Seq<u8>, ext: Seq<u8>)
    ensures
        next_is_local(meta_next_fn(), log, ext),
{
    assert forall|a: int|
        0 <= a && (#[trigger] meta_next_fn()(log, a)) is Some && a < meta_next_fn()(
            log,
            a,
        ).unwrap() <= log.len() implies meta_next_fn()(log + ext, a) == meta_next_fn()(log, a) by {
        let n = u32_at(log, a + 8) as int;
        assert((log + ext).subrange(a + 8, a + 8 + 4) =~= log.subrange(a + 8, a + 8 + 4));
        assert((log + ext).subrange(a + 12, a + 12 + n) =~= log.subrange(a + 12, a + 12 + n));
    }
    assert forall|a: int|
        0 <= a && (#[trigger] meta_next_fn()(log + ext, a)) is Some && a < meta_next_fn()(
            log + ext,
            a,
        ).unwrap() <= log.len() implies meta_next_fn()(log, a) == meta_next_fn()(log + ext, a) by {
        assert(a + 12 <= log.len());
        assert((log + ext).subrange(a + 8, a + 8 + 4) =~= log.subrange(a + 8, a + 8 + 4));
        let n = u32_at(log, a + 8) as int;
        assert((log + ext).subrange(a + 12, a + 12 + n) =~= log.subrange(a + 12, a + 12 + n));
    }
}

/// A turn log that replays to its end, with one more record appended,
/// replays to its new end and to the old state with that record taken in.
pub proof fn lemma_turn_log_append(log: Seq<u8>, rec: TurnRecord)
    requires
        replay_turn_log(log).1 == log.len(),
    ensures
        turn_record_bytes(rec).len() == 80,
        decode_turn(turn_record_bytes(rec)) == rec,
        replay_turn_log(log + turn_record_bytes(rec)) == (
            turn_step(replay_turn_log(log).0, turn_record_bytes(rec)),
            (log.len() + 80) as int,
        ),
{
    let ext = turn_record_bytes(rec);
    let all = log + ext;
    let n = log.len() as int;
    lemma_turn_record_roundtrip(rec);
    lemma_turn_next_local(log, ext);
    lemma_replay_extend(
        log,
        ext,
        turn_next_fn(),
        turn_step_fn(),
        0,
        TurnLogState { turns: Map::empty(), index: Seq::empty() },
    );
    assert(all.subrange(n, n + 80) =~= ext);
    assert(turn_next(all, n) == Some(n + 80));
    assert(turn_next(all, n + 80) is None);
    reveal_with_fuel(replay_from, 3);
}

/// A turn log that replays to its end, followed by a record without its last
/// byte, replays to the state and the end of the log alone.
pub proof fn lemma_turn_log_partial_tail(log: Seq<u8>, rec: TurnRecord)
    requires
        replay_turn_log(log).1 == log.len(),
    ensures
        replay_turn_log((log + turn_record_bytes(rec)).drop_last()) == replay_turn_log(log),
{
    let ext = turn_record_bytes(rec).drop_last();
    let n = log.len() as int;
    lemma_turn_record_roundtrip(rec);
    assert((log + turn_record_bytes(rec)).drop_last() =~= log + ext);
    lemma_turn_next_local(log, ext);
    lemma_replay_extend(
        log,
        ext,
        turn_next_fn(),
        turn_step_fn(),
        0,
        TurnLogState { turns: Map::empty(), index: Seq::empty() },
    );
    assert(turn_next(log + ext, n) is None);
}

/// A head table that replays to its end, with one more head appended,
/// replays to its new end and to the old heads with that head taken in.
pub proof fn lemma_heads_append(log: Seq<u8>, head: ContextHead)
    requires
        replay_heads(log).1 == log.len(),
    ensures
        head_record_bytes(head).len() == 36,
        replay_heads(log + head_record_bytes(head)) == (
            replay_heads(log).0.insert(head.context_id, head),
            (log.len() + 36) as int,
        ),
{
    let ext = head_record_bytes(head);
    let all = log + ext;
    let n = log.len() as int;
    lemma_head_record_roundtrip(head);
    lemma_head_next_local(log, ext);
    lemma_replay_extend(log, ext, head_next_fn(), head_step_fn(), 0, Map::empty());
    assert(all.subrange(n, n + 36) =~= ext);
    assert(head_next(all, n) == Some(n + 36));
    assert(head_next(all, n + 36) is None);
    reveal_with_fuel(replay_from, 3);
}

/// A head table that replays to its end, followed by a head record without
/// its last byte, replays to the heads and the end of the table alone.
pub proof fn lemma_heads_partial_tail(log: Seq<u8>, head: ContextHead)
    requires
        replay_heads(log).1 == log.len(),
    ensures
        replay_heads((log + head_record_bytes(head)).drop_last()) == replay_heads(log),
{
    let ext = head_record_bytes(head).drop_last();
    let n = log.len() as int;
    lemma_head_record_roundtrip(head);
    assert((log + head_record_bytes(head)).drop_last() =~= log + ext);
    lemma_head_next_local(log, ext);
    lemma_replay_extend(log, ext, head_next_fn(), head_step_fn(), 0, Map::empty());
    assert(head_next(log + ext, n) is None);
}

/// A metadata side-file that replays to its end, with one more entry
/// appended, replays to its new end and to the old map with that entry taken
/// in.
pub proof fn lemma_meta_append(log: Seq<u8>, turn_id: u64, meta: TurnMetaView)
    requires
        replay_meta(log).1 == log.len(),
        vstd::utf8::encode_utf8(meta.declared_type_id).len() <= u32::MAX,
    ensures
        replay_meta(log + meta_entry_bytes(turn_id, meta)) == (
            replay_meta(log).0.insert(turn_id, meta),
            (log.len() + meta_entry_bytes(turn_id, meta).len()) as int,
        ),
{
    let ext = meta_entry_bytes(turn_id, meta);
    let all = log + ext;
    let n = log.len() as int;
    let m = ext.len() as int;
    lemma_meta_entry_roundtrip(turn_id, meta);
    lemma_meta_next_local(log, ext);
    lemma_replay_extend(log, ext, meta_next_fn(), meta_step_fn(), 0, Map::empty());
    assert(all.subrange(n, n + m) =~= ext);
    assert(all.subrange(n + 8, n + 12) =~= ext.subrange(8, 12));
    let k = u32_at(ext, 8) as int;
    assert(all.subrange(n + 12, n + 12 + k) =~= ext.subrange(12, 12 + k));
    assert(meta_next(all, n) == Some(n + m));
    assert(meta_next(all, n + m) is None);
    reveal_with_fuel(replay_from, 3);
}

/// The turn store: the images of its four files and what they replay to.
pub struct TurnStore {
    log: Vec<u8>,
    idx: Vec<u8>,
    meta: Vec<u8>,
    heads_tbl: Vec<u8>,
    turns: HashMap<u64, TurnRecord>,
    turn_meta: HashMap<u64, TurnMeta>,
    heads: HashMap<u64, ContextHead>,
    context_order: Vec<u64>,
    next_turn_id: u64,
    next_context_id: u64,
}

/// What a turn store holds.
pub ghost struct TurnStoreView {
    /// The turns by id.
    pub turns: Map<u64, TurnRecord>,
    /// The metadata by turn id.
    pub metas: Map<u64, TurnMetaView>,
    /// The head of each context.
    pub heads: Map<u64, ContextHead>,
    /// The contexts that have a head, each once.
    pub contexts: Seq<u64>,
    /// The image of the turn log.
    pub log: Seq<u8>,
    /// The image of the offset index.
    pub index: Seq<u8>,
    /// The image of the metadata side-file.
    pub meta_log: Seq<u8>,
    /// The image of the head table.
    pub heads_log: Seq<u8>,
    /// The id that the next turn gets.
    pub next_turn_id: u64,
    /// The id that the next context gets.
    pub next_context_id: u64,
}

/// Whether the images replay, to their very end, to the maps beside them,
/// the next turn id lies one above the largest turn id, and the next context
/// id one above the largest context id.
pub open spec fn turn_store_consistent(v: TurnStoreView) -> bool {
    &&& replay_turn_log(v.log) == (
        TurnLogState { turns: v.turns, index: v.index },
        v.log.len() as int,
    )
    &&& replay_meta(v.meta_log) == (v.metas, v.meta_log.len() as int)
    &&& replay_heads(v.heads_log) == (v.heads, v.heads_log.len() as int)
    &&& order_ok(v.heads, v.contexts)
    &&& v.index.len() * 5 == v.log.len()
    &&& keyed_by_id(v.turns)
    &&& v.next_turn_id >= 1
    &&& is_largest_key(v.turns, (v.next_turn_id - 1) as u64)
    &&& v.next_context_id >= 1
    &&& is_largest_key(v.heads, (v.next_context_id - 1) as u64)
}

/// The store that the three replayed images give: each image cut to its
/// valid prefix, the index rebuilt, and each counter one above the largest
/// id that was read.
pub open spec fn opened_view(log: Seq<u8>, meta: Seq<u8>, heads: Seq<u8>, v: TurnStoreView) -> bool {
    &&& v.turns == replay_turn_log(log).0.turns
    &&& v.index == replay_turn_log(log).0.index
    &&& v.log == log.subrange(0, replay_turn_log(log).1)
    &&& v.metas == replay_meta(meta).0
    &&& v.meta_log == meta.subrange(0, replay_meta(meta).1)
    &&& v.heads == replay_heads(heads).0
    &&& order_ok(v.heads, v.contexts)
    &&& v.heads_log == heads.subrange(0, replay_heads(heads).1)
    &&& v.next_turn_id >= 1
    &&& is_largest_key(v.turns, (v.next_turn_id - 1) as u64)
    &&& v.next_context_id >= 1
    &&& is_largest_key(v.heads, (v.next_context_id - 1) as u64)
}

/// Whether replaying the images must fail: a metadata entry holds a type id
/// that is not UTF-8, or a turn id or a context id is so large that none can
/// follow it.
pub open spec fn images_corrupt(log: Seq<u8>, meta: Seq<u8>, heads: Seq<u8>) -> bool {
    ||| meta_corrupt_at(meta, replay_meta(meta).1)
    ||| replay_turn_log(log).0.turns.contains_key(u64::MAX)
    ||| replay_heads(heads).0.contains_key(u64::MAX)
}

impl View for TurnStore {
    type V = TurnStoreView;

    closed spec fn view(&self) -> TurnStoreView {
        TurnStoreView {
            turns: self.turns@,
            metas: meta_views(self.turn_meta@),
            heads: self.heads@,
            contexts: self.context_order@,
            log: self.log@,
            index: self.idx@,
            meta_log: self.meta@,
            heads_log: self.heads_tbl@,
            next_turn_id: self.next_turn_id,
            next_context_id: self.next_context_id,
        }
    }
}

/// The parent that an append resolves to: `None` where the context or the
/// turn that it names is absent, `Some(None)` where the new turn is a root,
/// and `Some(Some(p))` where it follows the turn `p`.
pub open spec fn resolve_parent(
    v: TurnStoreView,
    context_id: u64,
    parent_turn_id: u64,
) -> Option<Option<TurnRecord>> {
    if !v.heads.contains_key(context_id) {
        None
    } else if parent_turn_id != 0 {
        if v.turns.contains_key(parent_turn_id) {
            Some(Some(v.turns[parent_turn_id]))
        } else {
            None
        }
    } else if v.heads[context_id].head_turn_id == 0 {
        Some(None)
    } else if v.turns.contains_key(v.heads[context_id].head_turn_id) {
        Some(Some(v.turns[v.heads[context_id].head_turn_id]))
    } else {
        None
    }
}

/// Whether an append that resolved its parent still cannot be recorded: no
/// turn id is left, the depth would not fit, or the type id is longer than
/// its length field can say.
pub open spec fn append_out_of_range(
    v: TurnStoreView,
    parent: Option<TurnRecord>,
    declared_type_id: Seq<char>,
) -> bool {
    ||| v.next_turn_id == u64::MAX
    ||| parent is Some && parent.unwrap().depth == u32::MAX
    ||| vstd::utf8::encode_utf8(declared_type_id).len() > u32::MAX
}

/// The record that an append writes.
pub open spec fn appended_record(
    v: TurnStoreView,
    parent: Option<TurnRecord>,
    payload_hash: [u8; 32],
    encoding: u32,
    now_ms: u64,
) -> TurnRecord {
    TurnRecord {
        turn_id: v.next_turn_id,
        parent_turn_id: match parent {
            Some(p) => p.turn_id,
            None => 0,
        },
        depth: match parent {
            Some(p) => (p.depth + 1) as u32,
            None => 0,
        },
        codec: encoding,
        type_tag: 0,
        payload_hash,
        flags: 0,
        created_at_unix_ms: now_ms,
    }
}

/// The store after a turn with its metadata was appended to a context.
pub open spec fn view_after_append(
    v: TurnStoreView,
    context_id: u64,
    record: TurnRecord,
    meta: TurnMetaView,
) -> TurnStoreView {
    let head = ContextHead {
        context_id,
        head_turn_id: record.turn_id,
        head_depth: record.depth,
        created_at_unix_ms: record.created_at_unix_ms,
        flags: 0,
    };
    TurnStoreView {
        turns: v.turns.insert(record.turn_id, record),
        metas: v.metas.insert(record.turn_id, meta),
        heads: v.heads.insert(context_id, head),
        contexts: with_context(v.heads, v.contexts, context_id),
        log: v.log + turn_record_bytes(record),
        index: v.index + spec_u64_to_le_bytes(record.turn_id) + spec_u64_to_le_bytes(
            v.log.len() as u64,
        ),
        meta_log: v.meta_log + meta_entry_bytes(record.turn_id, meta),
        heads_log: v.heads_log + head_record_bytes(head),
        next_turn_id: (v.next_turn_id + 1) as u64,
        next_context_id: v.next_context_id,
    }
}

/// The head that a new context starts with.
pub open spec fn created_head(v: TurnStoreView, base_turn_id: u64, now_ms: u64) -> ContextHead {
    ContextHead {
        context_id: v.next_context_id,
        head_turn_id: if base_turn_id == 0 {
            0
        } else {
            v.turns[base_turn_id].turn_id
        },
        head_depth: if base_turn_id == 0 {
            0
        } else {
            v.turns[base_turn_id].depth
        },
        created_at_unix_ms: now_ms,
        flags: 0,
    }
}

/// The store after a context with this head was created.
pub open spec fn view_after_create(v: TurnStoreView, head: ContextHead) -> TurnStoreView {
    TurnStoreView {
        heads: v.heads.insert(head.context_id, head),
        contexts: with_context(v.heads, v.contexts, head.context_id),
        heads_log: v.heads_log + head_record_bytes(head),
        next_context_id: (v.next_context_id + 1) as u64,
        ..v
    }
}

/// The turns met on the way back from `current` along parent pointers, at
/// most `remaining` of them, latest first and behind `acc`; `None` where a
/// turn on the way is absent.
pub open spec fn walk_back(
    turns: Map<u64, TurnRecord>,
    current: u64,
    remaining: nat,
    acc: Seq<TurnRecord>,
) -> Option<Seq<TurnRecord>>
    decreases remaining,
{
    if current == 0 || remaining == 0 {
        Some(acc)
    } else if !turns.contains_key(current) {
        None
    } else {
        walk_back(turns, turns[current].parent_turn_id, (remaining - 1) as nat, acc.push(turns[current]))
    }
}

/// The last turns of the chain that ends in `from`, at most `limit` of them,
/// ancestors first; `None` where a turn on the way is absent.
pub open spec fn last_turns(turns: Map<u64, TurnRecord>, from: u64, limit: nat) -> Option<
    Seq<TurnRecord>,
> {
    match walk_back(turns, from, limit, Seq::empty()) {
        Some(found) => Some(found.reverse()),
        None => None,
    }
}

/// What `get_last` gives for a context.
pub open spec fn spec_get_last(v: TurnStoreView, context_id: u64, limit: u32) -> Option<
    Seq<TurnRecord>,
> {
    if v.heads.contains_key(context_id) {
        last_turns(v.turns, v.heads[context_id].head_turn_id, limit as nat)
    } else {
        None
    }
}

/// What `get_before` gives for a context and a turn.
pub open spec fn spec_get_before(
    v: TurnStoreView,
    context_id: u64,
    before_turn_id: u64,
    limit: u32,
) -> Option<Seq<TurnRecord>> {
    if !v.heads.contains_key(context_id) {
        None
    } else if before_turn_id == 0 || v.heads[context_id].head_turn_id == 0 {
        spec_get_last(v, context_id, limit)
    } else if !v.turns.contains_key(before_turn_id) {
        None
    } else {
        last_turns(v.turns, v.turns[before_turn_id].parent_turn_id, limit as nat)
    }
}

/// The outcome of looking for the first turn of a chain.
pub enum FirstTurn {
    /// The turn of depth 0 that the chain reaches.
    Found(TurnRecord),
    /// The chain ends, or names an absent turn, before a turn of depth 0.
    Missing,
    /// A turn on the chain is no deeper than its parent.
    Broken,
}

/// Walks back from `current` to the turn of depth 0. Every turn on the way
/// must be less deep than `bound`.
pub open spec fn first_turn_from(turns: Map<u64, TurnRecord>, current: u64, bound: nat) -> FirstTurn
    decreases bound,
{
    if current == 0 || !turns.contains_key(current) {
        FirstTurn::Missing
    } else if turns[current].depth >= bound {
        FirstTurn::Broken
    } else if turns[current].depth == 0 {
        FirstTurn::Found(turns[current])
    } else {
        first_turn_from(turns, turns[current].parent_turn_id, turns[current].depth as nat)
    }
}

/// Whether every turn is a root of depth 0 or lies one deeper than its
/// parent, which the store holds.
pub open spec fn lineage_ok(turns: Map<u64, TurnRecord>) -> bool {
    forall|k: u64| #[trigger]
        turns.contains_key(k) ==> if turns[k].parent_turn_id == 0 {
            turns[k].depth == 0
        } else {
            &&& turns.contains_key(turns[k].parent_turn_id)
            &&& turns[k].depth == turns[turns[k].parent_turn_id].depth + 1
        }
}

/// In intact chains, a turn that names a parent lies one deeper than its
/// parent, which the store holds.
pub proof fn lemma_depth_follows_parent(turns: Map<u64, TurnRecord>, turn_id: u64)
    requires
        lineage_ok(turns),
        turns.contains_key(turn_id),
        turns[turn_id].parent_turn_id != 0,
    ensures
        turns.contains_key(turns[turn_id].parent_turn_id),
        turns[turn_id].depth == turns[turns[turn_id].parent_turn_id].depth + 1,
{
}

/// In a consistent store no context has the id that the next context gets,
/// nor a larger one.
pub proof fn lemma_next_context_unused(v: TurnStoreView, context_id: u64)
    requires
        turn_store_consistent(v),
        context_id >= v.next_context_id,
    ensures
        !v.heads.contains_key(context_id),
{
}

/// Whether every head is empty or names a turn that the store holds.
pub open spec fn heads_name_turns(v: TurnStoreView) -> bool {
    forall|c: u64| #[trigger]
        v.heads.contains_key(c) ==> v.heads[c].head_turn_id == 0 || v.turns.contains_key(
            v.heads[c].head_turn_id,
        )
}

/// Whether the turns form chains that descend to roots, and the heads point
/// into them.
pub open spec fn chains_ok(v: TurnStoreView) -> bool {
    lineage_ok(v.turns) && heads_name_turns(v)
}

/// Creating a context keeps the chains intact.
pub proof fn lemma_create_keeps_chains(v: TurnStoreView, base_turn_id: u64, now_ms: u64)
    requires
        turn_store_consistent(v),
        chains_ok(v),
        base_turn_id == 0 || v.turns.contains_key(base_turn_id),
    ensures
        chains_ok(view_after_create(v, created_head(v, base_turn_id, now_ms))),
{
    let head = created_head(v, base_turn_id, now_ms);
    let w = view_after_create(v, head);
    assert forall|c: u64| #[trigger] w.heads.contains_key(c) implies w.heads[c].head_turn_id == 0
        || w.turns.contains_key(w.heads[c].head_turn_id) by {
        if c != head.context_id {
            assert(v.heads.contains_key(c));
        }
    }
}

/// Appending a turn keeps the chains intact: the new turn is a root of depth
/// 0 or lies one deeper than its parent, and no other turn changes.
pub proof fn lemma_append_keeps_chains(
    v: TurnStoreView,
    context_id: u64,
    parent: Option<TurnRecord>,
    payload_hash: [u8; 32],
    encoding: u32,
    now_ms: u64,
    meta: TurnMetaView,
)
    requires
        turn_store_consistent(v),
        chains_ok(v),
        v.next_turn_id < u64::MAX,
        match parent {
            Some(p) => p.turn_id != 0 && v.turns.contains_key(p.turn_id) && v.turns[p.turn_id]
                == p && p.depth < u32::MAX,
            None => true,
        },
    ensures
        chains_ok(
            view_after_append(
                v,
                context_id,
                appended_record(v, parent, payload_hash, encoding, now_ms),
                meta,
            ),
        ),
{
    let rec = appended_record(v, parent, payload_hash, encoding, now_ms);
    let w = view_after_append(v, context_id, rec, meta);
    assert(!v.turns.contains_key(rec.turn_id));
    assert forall|k: u64| #[trigger] w.turns.contains_key(k) implies if w.turns[k].parent_turn_id
        == 0 {
        w.turns[k].depth == 0
    } else {
        &&& w.turns.contains_key(w.turns[k].parent_turn_id)
        &&& w.turns[k].depth == w.turns[w.turns[k].parent_turn_id].depth + 1
    } by {
        if k != rec.turn_id {
            assert(v.turns.contains_key(k));
        }
    }
    assert forall|c: u64| #[trigger] w.heads.contains_key(c) implies w.heads[c].head_turn_id == 0
        || w.turns.contains_key(w.heads[c].head_turn_id) by {
        if c != context_id {
            assert(v.heads.contains_key(c));
        }
    }
}

/// In intact chains, the way back from any turn reaches a turn of depth 0.
pub proof fn lemma_chain_reaches_root(turns: Map<u64, TurnRecord>, id: u64, bound: nat)
    requires
        lineage_ok(turns),
        id != 0,
        turns.contains_key(id),
        turns[id].depth < bound,
    ensures
        first_turn_from(turns, id, bound) is Found,
        first_turn_from(turns, id, bound)->Found_0.depth == 0,
    decreases turns[id].depth,
{
    if turns[id].depth != 0 {
        lemma_chain_reaches_root(turns, turns[id].parent_turn_id, turns[id].depth as nat);
    }
}

/// In intact chains, every head is empty or names a turn from which the way
/// back reaches a turn of depth 0.
pub proof fn lemma_heads_reach_roots(v: TurnStoreView, context_id: u64)
    requires
        chains_ok(v),
        v.heads.contains_key(context_id),
        v.heads[context_id].head_turn_id != 0,
    ensures
        v.turns.contains_key(v.heads[context_id].head_turn_id),
        first_turn_from(v.turns, v.heads[context_id].head_turn_id, 0x1_0000_0000) is Found,
{
    lemma_chain_reaches_root(v.turns, v.heads[context_id].head_turn_id, 0x1_0000_0000);
}

/// A limit of 0 gives no turns.
pub proof fn lemma_get_last_zero(v: TurnStoreView, context_id: u64)
    requires
        v.heads.contains_key(context_id),
    ensures
        spec_get_last(v, context_id, 0) == Some(Seq::<TurnRecord>::empty()),
{
    assert(Seq::<TurnRecord>::empty().reverse() =~= Seq::<TurnRecord>::empty());
}

proof fn lemma_walk_whole_chain(
    turns: Map<u64, TurnRecord>,
    id: u64,
    remaining: nat,
    acc: Seq<TurnRecord>,
)
    requires
        lineage_ok(turns),
        keyed_by_id(turns),
        id != 0,
        turns.contains_key(id),
        remaining > turns[id].depth,
    ensures
        walk_back(turns, id, remaining, acc) == walk_back(
            turns,
            id,
            (turns[id].depth + 1) as nat,
            acc,
        ),
        walk_back(turns, id, remaining, acc) is Some,
        ({
            let found = walk_back(turns, id, remaining, acc).unwrap();
            let d = turns[id].depth as int;
            &&& found.len() == acc.len() + d + 1
            &&& forall|j: int| 0 <= j < acc.len() ==> found[j] == acc[j]
            &&& forall|j: int| 0 <= j <= d ==> (#[trigger] found[acc.len() + j]).depth == d - j
            &&& found[acc.len() as int] == turns[id]
            &&& found[acc.len() + d].parent_turn_id == 0
            &&& forall|j: int|
                0 <= j < d ==> (#[trigger] found[acc.len() + j]).parent_turn_id == found[acc.len()
                    + j + 1].turn_id
        }),
    decreases turns[id].depth,
{
    let t = turns[id];
    if t.parent_turn_id != 0 {
        let p = t.parent_turn_id;
        lemma_walk_whole_chain(turns, p, (remaining - 1) as nat, acc.push(t));
        lemma_walk_whole_chain(turns, p, t.depth as nat, acc.push(t));
        let found = walk_back(turns, id, remaining, acc).unwrap();
        let d = t.depth as int;
        assert(found[acc.len() as int] == acc.push(t)[acc.len() as int]);
        assert forall|j: int| 0 <= j < acc.len() implies found[j] == acc[j] by {
            assert(found[j] == acc.push(t)[j]);
        }
        assert forall|j: int| 0 <= j <= d implies (#[trigger] found[acc.len() + j]).depth == d
            - j by {
            if j > 0 {
                assert(found[acc.push(t).len() + (j - 1)].depth == (d - 1) - (j - 1));
            }
        }
        assert forall|j: int| 0 <= j < d implies (#[trigger] found[acc.len() + j]).parent_turn_id
            == found[acc.len() + j + 1].turn_id by {
            if j > 0 {
                assert(found[acc.push(t).len() + (j - 1)].parent_turn_id == found[acc.push(
                    t,
                ).len() + (j - 1) + 1].turn_id);
            } else {
                assert(found[acc.push(t).len() as int] == turns[p]);
            }
        }
    } else {
        reveal_with_fuel(walk_back, 2);
    }
}

/// In intact chains, a limit above the depth of the head gives the whole
/// chain, ancestors first: as many turns as the head is deep and one more,
/// the turn at place `i` of depth `i`, the first a root, each next the child
/// of the one before, and the head last.
pub proof fn lemma_get_last_whole_chain(v: TurnStoreView, context_id: u64, limit: u32)
    requires
        lineage_ok(v.turns),
        keyed_by_id(v.turns),
        v.heads.contains_key(context_id),
        v.heads[context_id].head_turn_id != 0,
        v.turns.contains_key(v.heads[context_id].head_turn_id),
        limit > v.turns[v.heads[context_id].head_turn_id].depth,
    ensures
        spec_get_last(v, context_id, limit) is Some,
        ({
            let chain = spec_get_last(v, context_id, limit).unwrap();
            let head = v.turns[v.heads[context_id].head_turn_id];
            &&& chain.len() == head.depth + 1
            &&& chain.last() == head
            &&& chain[0].parent_turn_id == 0
            &&& forall|i: int| 0 <= i < chain.len() ==> (#[trigger] chain[i]).depth == i
            &&& forall|i: int|
                0 < i < chain.len() ==> (#[trigger] chain[i]).parent_turn_id == chain[i
                    - 1].turn_id
        }),
{
    let id = v.heads[context_id].head_turn_id;
    let d = v.turns[id].depth as int;
    lemma_walk_whole_chain(v.turns, id, limit as nat, Seq::empty());
    let found = walk_back(v.turns, id, limit as nat, Seq::empty()).unwrap();
    let chain = found.reverse();
    assert forall|i: int| 0 <= i < chain.len() implies (#[trigger] chain[i]).depth == i by {
        assert(chain[i] == found[0 + (d - i)]);
    }
    assert forall|i: int| 0 < i < chain.len() implies (#[trigger] chain[i]).parent_turn_id
        == chain[i - 1].turn_id by {
        assert(chain[i] == found[0 + (d - i)]);
        assert(chain[i - 1] == found[0 + (d - i) + 1]);
    }
    assert(chain[0] == found[0 + d]);
    assert(chain.last() == found[0]);
}

/// A store's images replay to the store: opening them again gives the same
/// turns, metadata, heads, index and next turn id, and cuts nothing off.
pub proof fn lemma_reopen_gives_same_store(v: TurnStoreView, w: TurnStoreView)
    requires
        turn_store_consistent(v),
        opened_view(v.log, v.meta_log, v.heads_log, w),
    ensures
        !images_corrupt(v.log, v.meta_log, v.heads_log),
        w.turns == v.turns,
        w.metas == v.metas,
        w.heads == v.heads,
        w.log == v.log,
        w.index == v.index,
        w.meta_log == v.meta_log,
        w.heads_log == v.heads_log,
        w.next_turn_id == v.next_turn_id,
{
    assert(v.log.subrange(0, v.log.len() as int) =~= v.log);
    assert(v.meta_log.subrange(0, v.meta_log.len() as int) =~= v.meta_log);
    assert(v.heads_log.subrange(0, v.heads_log.len() as int) =~= v.heads_log);
    assert(!v.turns.contains_key(u64::MAX));
    if w.next_turn_id != v.next_turn_id {
        assert(v.turns.contains_key((v.next_turn_id - 1) as u64) || v.next_turn_id == 1);
        assert(w.turns.contains_key((w.next_turn_id - 1) as u64) || w.next_turn_id == 1);
    }
}

/// A metadata side-file that replays to its end, followed by an entry
/// without its last byte, replays to the map and the end of the file alone.
pub proof fn lemma_meta_partial_tail(log: Seq<u8>, turn_id: u64, meta: TurnMetaView)
    requires
        replay_meta(log).1 == log.len(),
        vstd::utf8::encode_utf8(meta.declared_type_id).len() <= u32::MAX,
    ensures
        replay_meta((log + meta_entry_bytes(turn_id, meta)).drop_last()) == replay_meta(log),
{
    let full = meta_entry_bytes(turn_id, meta);
    let ext = full.drop_last();
    let n = log.len() as int;
    lemma_meta_entry_roundtrip(turn_id, meta);
    assert((log + full).drop_last() =~= log + ext);
    lemma_meta_next_local(log, ext);
    lemma_replay_extend(log, ext, meta_next_fn(), meta_step_fn(), 0, Map::empty());
    if n + 12 <= (log + ext).len() {
        assert((log + ext).subrange(n + 8, n + 8 + 4) =~= full.subrange(8, 12));
    }
    assert(meta_entry_end(log + ext, n) is None);
}

/// The heads of the contexts, in the order of the list of contexts.
pub open spec fn heads_in_order(v: TurnStoreView) -> Seq<ContextHead> {
    Seq::new(v.contexts.len(), |i: int| v.heads[v.contexts[i]])
}

/// Whether the heads stand newest first, by the time they were made.
pub open spec fn newest_first(s: Seq<ContextHead>) -> bool {
    forall|i: int, j: int|
        0 <= i < j < s.len() ==> s[i].created_at_unix_ms >= s[j].created_at_unix_ms
}

/// Whether `recent` holds the `limit` newest heads of the store, newest
/// first: the first heads of a list of all heads that stands newest first.
pub open spec fn is_recent_contexts(v: TurnStoreView, limit: u32, recent: Seq<ContextHead>) -> bool {
    exists|all: Seq<ContextHead>|
        {
            &&& #[trigger] newest_first(all)
            &&& all.to_multiset() == heads_in_order(v).to_multiset()
            &&& recent == all.take(
                if limit < all.len() {
                    limit as int
                } else {
                    all.len() as int
                },
            )
        }
}

/// Counts of what a turn store holds, and the sizes of its files.
#[derive(Debug, Clone, Copy)]
pub struct TurnStoreStats {
    pub turns_total: usize,
    pub contexts_total: usize,
    pub heads_total: usize,
    pub turns_log_bytes: u64,
    pub turns_index_bytes: u64,
    pub turns_meta_bytes: u64,
    pub heads_table_bytes: u64,
}

/// The sequence in reverse order.
fn reversed(items: Vec<TurnRecord>) -> (out: Vec<TurnRecord>)
    ensures
        out@ == items@.reverse(),
{
    let mut out: Vec<TurnRecord> = Vec::with_capacity(items.len());
    let mut i: usize = items.len();
    while i > 0
        invariant
            i <= items.len(),
            out@.len() == items.len() - i,
            forall|j: int| 0 <= j < out@.len() ==> out@[j] == items@[items.len() - 1 - j],
        decreases i,
    {
        i -= 1;
        out.push(items[i]);
    }
    assert(out@ =~= items@.reverse());
    out
}

impl TurnStore {
    /// Whether the images replay, to their very end, to the maps beside
    /// them, and each counter is in range.
    pub open spec fn wf(&self) -> bool {
        turn_store_consistent(self@)
    }

    /// A store without turns or contexts, over four empty images.
    pub fn new() -> (store: TurnStore)
        ensures
            store.wf(),
            store@.turns == Map::<u64, TurnRecord>::empty(),
            store@.metas == Map::<u64, TurnMetaView>::empty(),
            store@.heads == Map::<u64, ContextHead>::empty(),
            store@.contexts.len() == 0,
            store@.log.len() == 0,
            store@.index.len() == 0,
            store@.meta_log.len() == 0,
            store@.heads_log.len() == 0,
            store@.next_turn_id == 1,
            store@.next_context_id == 1,
            chains_ok(store@),
    {
        let store = TurnStore {
            log: Vec::new(),
            idx: Vec::new(),
            meta: Vec::new(),
            heads_tbl: Vec::new(),
            turns: HashMap::new(),
            turn_meta: HashMap::new(),
            heads: HashMap::new(),
            context_order: Vec::new(),
            next_turn_id: 1,
            next_context_id: 1,
        };
        assert(meta_views(store.turn_meta@) =~= Map::empty());
        store
    }

    /// Opens a store over the images of the turn log, the metadata side-file
    /// and the head table: replays each, cuts it to its valid prefix, and
    /// rebuilds the offset index.
    ///
    /// Fails with `Corrupt` exactly where `images_corrupt` holds.
    pub fn open(log: Vec<u8>, meta: Vec<u8>, heads_tbl: Vec<u8>) -> (r: Result<
        TurnStore,
        StoreError,
    >)
        ensures
            r is Ok <==> !images_corrupt(log@, meta@, heads_tbl@),
            match r {
                Ok(store) => store.wf() && opened_view(log@, meta@, heads_tbl@, store@),
                Err(e) => e.kind() == ErrorKind::Corrupt,
            },
    {
        let mut log = log;
        let mut meta = meta;
        let mut heads_tbl = heads_tbl;
        let ghost log0 = log@;
        let ghost meta0 = meta@;
        let ghost heads0 = heads_tbl@;
        let (turns, idx, log_len, largest_turn) = load_turns(&log);
        let (turn_meta, meta_len) = match load_meta(&meta) {
            Ok(loaded) => loaded,
            Err(e) => {
                return Err(e);
            },
        };
        let (heads, heads_len, largest_context, context_order) = load_heads(&heads_tbl);
        if largest_turn == u64::MAX {
            return Err(StoreError::Corrupt("turn id space exhausted".to_string()));
        }
        if largest_context == u64::MAX {
            return Err(StoreError::Corrupt("context id space exhausted".to_string()));
        }
        let next_context_id = largest_context + 1;
        log.truncate(log_len);
        meta.truncate(meta_len);
        heads_tbl.truncate(heads_len);
        proof {
            let lrest = log0.subrange(log_len as int, log0.len() as int);
            assert(log@ + lrest =~= log0);
            lemma_turn_next_local(log@, lrest);
            lemma_replay_cut(
                log@,
                lrest,
                turn_next_fn(),
                turn_step_fn(),
                0,
                TurnLogState { turns: Map::empty(), index: Seq::empty() },
            );
            let mrest = meta0.subrange(meta_len as int, meta0.len() as int);
            assert(meta@ + mrest =~= meta0);
            lemma_meta_next_local(meta@, mrest);
            lemma_replay_cut(meta@, mrest, meta_next_fn(), meta_step_fn(), 0, Map::empty());
            let hrest = heads0.subrange(heads_len as int, heads0.len() as int);
            assert(heads_tbl@ + hrest =~= heads0);
            lemma_head_next_local(heads_tbl@, hrest);
            lemma_replay_cut(heads_tbl@, hrest, head_next_fn(), head_step_fn(), 0, Map::empty());
        }
        Ok(
            TurnStore {
                log,
                idx,
                meta,
                heads_tbl,
                turns,
                turn_meta,
                heads,
                context_order,
                next_turn_id: largest_turn + 1,
                next_context_id,
            },
        )
    }

    /// The image of the turn log, for the host to persist.
    pub fn log_image(&self) -> (bytes: &Vec<u8>)
        ensures
            bytes@ == self@.log,
    {
        &self.log
    }

    /// The image of the offset index, for the host to persist.
    pub fn index_image(&self) -> (bytes: &Vec<u8>)
        ensures
            bytes@ == self@.index,
    {
        &self.idx
    }

    /// The image of the metadata side-file, for the host to persist.
    pub fn meta_image(&self) -> (bytes: &Vec<u8>)
        ensures
            bytes@ == self@.meta_log,
    {
        &self.meta
    }

    /// The image of the head table, for the host to persist.
    pub fn heads_image(&self) -> (bytes: &Vec<u8>)
        ensures
            bytes@ == self@.heads_log,
    {
        &self.heads_tbl
    }

    /// Counts of turns and contexts, and the sizes of the four images.
    pub fn stats(&self) -> (stats: TurnStoreStats)
        ensures
            stats.turns_total == self@.turns.dom().len(),
            stats.contexts_total == self@.heads.dom().len(),
            stats.heads_total == self@.heads.dom().len(),
            stats.turns_log_bytes == self@.log.len(),
            stats.turns_index_bytes == self@.index.len(),
            stats.turns_meta_bytes == self@.meta_log.len(),
            stats.heads_table_bytes == self@.heads_log.len(),
    {
        TurnStoreStats {
            turns_total: self.turns.len(),
            contexts_total: self.heads.len(),
            heads_total: self.heads.len(),
            turns_log_bytes: self.log.len() as u64,
            turns_index_bytes: self.idx.len() as u64,
            turns_meta_bytes: self.meta.len() as u64,
            heads_table_bytes: self.heads_tbl.len() as u64,
        }
    }

    /// The head of a context; fails with `NotFound` where there is none.
    pub fn get_head(&self, context_id: u64) -> (r: Result<ContextHead, StoreError>)
        ensures
            match r {
                Ok(head) => self@.heads.contains_key(context_id) && head
                    == self@.heads[context_id],
                Err(e) => !self@.heads.contains_key(context_id) && e.kind()
                    == ErrorKind::NotFound,
            },
    {
        match self.heads.get(&context_id) {
            Some(head) => Ok(*head),
            None => Err(StoreError::NotFound("context".to_string())),
        }
    }

    /// The turn with this id; fails with `NotFound` where there is none.
    pub fn get_turn(&self, turn_id: u64) -> (r: Result<TurnRecord, StoreError>)
        ensures
            match r {
                Ok(rec) => self@.turns.contains_key(turn_id) && rec == self@.turns[turn_id],
                Err(e) => !self@.turns.contains_key(turn_id) && e.kind() == ErrorKind::NotFound,
            },
    {
        match self.turns.get(&turn_id) {
            Some(rec) => Ok(*rec),
            None => Err(StoreError::NotFound("turn".to_string())),
        }
    }

    /// The metadata of the turn with this id; fails with `NotFound` where
    /// there is none.
    pub fn get_turn_meta(&self, turn_id: u64) -> (r: Result<TurnMeta, StoreError>)
        ensures
            match r {
                Ok(meta) => self@.metas.contains_key(turn_id) && meta@ == self@.metas[turn_id],
                Err(e) => !self@.metas.contains_key(turn_id) && e.kind() == ErrorKind::NotFound,
            },
    {
        match self.turn_meta.get(&turn_id) {
            Some(meta) => Ok(meta.clone()),
            None => Err(StoreError::NotFound("turn meta".to_string())),
        }
    }

    /// Starts a context at the time `now_ms`: a fresh context id, whose head
    /// is the turn `base_turn_id`, or empty where that is 0.
    ///
    /// Fails with `NotFound` where the base turn is absent and with
    /// `InvalidInput` where no context id is left; the store is then
    /// unchanged.
    pub fn create_context_at(&mut self, base_turn_id: u64, now_ms: u64) -> (r: Result<
        ContextHead,
        StoreError,
    >)
        requires
            old(self).wf(),
        ensures
            final(self).wf(),
            chains_ok(old(self)@) ==> chains_ok(final(self)@),
            match r {
                Ok(head) => {
                    &&& base_turn_id == 0 || old(self)@.turns.contains_key(base_turn_id)
                    &&& old(self)@.next_context_id < u64::MAX
                    &&& !old(self)@.heads.contains_key(head.context_id)
                    &&& head == created_head(old(self)@, base_turn_id, now_ms)
                    &&& final(self)@ == view_after_create(old(self)@, head)
                },
                Err(e) => {
                    &&& final(self)@ == old(self)@
                    &&& if base_turn_id != 0 && !old(self)@.turns.contains_key(base_turn_id) {
                        e.kind() == ErrorKind::NotFound
                    } else {
                        e.kind() == ErrorKind::InvalidInput && old(self)@.next_context_id
                            == u64::MAX
                    }
                },
            },
    {
        let (head_turn_id, head_depth) = if base_turn_id == 0 {
            (0, 0)
        } else {
            match self.turns.get(&base_turn_id) {
                Some(turn) => (turn.turn_id, turn.depth),
                None => {
                    return Err(StoreError::NotFound("base turn".to_string()));
                },
            }
        };
        if self.next_context_id == u64::MAX {
            return Err(StoreError::InvalidInput("context id space exhausted".to_string()));
        }
        let context_id = self.next_context_id;
        let head = ContextHead {
            context_id,
            head_turn_id,
            head_depth,
            created_at_unix_ms: now_ms,
            flags: 0,
        };
        proof {
            lemma_heads_append(self.heads_tbl@, head);
            if chains_ok(self@) {
                lemma_create_keeps_chains(self@, base_turn_id, now_ms);
            }
        }
        self.next_context_id = context_id + 1;
        self.write_head(&head);
        self.put_head(head);
        Ok(head)
    }

    /// Starts a context now: see `create_context_at`.
    pub fn create_context(&mut self, base_turn_id: u64) -> (r: Result<ContextHead, StoreError>)
        requires
            old(self).wf(),
        ensures
            final(self).wf(),
            chains_ok(old(self)@) ==> chains_ok(final(self)@),
            match r {
                Ok(head) => {
                    &&& base_turn_id == 0 || old(self)@.turns.contains_key(base_turn_id)
                    &&& old(self)@.next_context_id < u64::MAX
                    &&& !old(self)@.heads.contains_key(head.context_id)
                    &&& head == created_head(old(self)@, base_turn_id, head.created_at_unix_ms)
                    &&& final(self)@ == view_after_create(old(self)@, head)
                },
                Err(e) => {
                    &&& final(self)@ == old(self)@
                    &&& if base_turn_id != 0 && !old(self)@.turns.contains_key(base_turn_id) {
                        e.kind() == ErrorKind::NotFound
                    } else {
                        e.kind() == ErrorKind::InvalidInput && old(self)@.next_context_id
                            == u64::MAX
                    }
                },
            },
    {
        let now_ms = now_unix_ms();
        self.create_context_at(base_turn_id, now_ms)
    }

    /// Forks a context off an existing turn at the time `now_ms`: a new
    /// context whose head is that turn.
    ///
    /// Fails with `NotFound` where the base turn is 0 or absent, and with
    /// `InvalidInput` where no context id is left; the store is then
    /// unchanged.
    pub fn fork_context_at(&mut self, base_turn_id: u64, now_ms: u64) -> (r: Result<
        ContextHead,
        StoreError,
    >)
        requires
            old(self).wf(),
        ensures
            final(self).wf(),
            chains_ok(old(self)@) ==> chains_ok(final(self)@),
            match r {
                Ok(head) => {
                    &&& base_turn_id != 0
                    &&& old(self)@.turns.contains_key(base_turn_id)
                    &&& old(self)@.next_context_id < u64::MAX
                    &&& !old(self)@.heads.contains_key(head.context_id)
                    &&& head == created_head(old(self)@, base_turn_id, now_ms)
                    &&& final(self)@ == view_after_create(old(self)@, head)
                },
                Err(e) => {
                    &&& final(self)@ == old(self)@
                    &&& if base_turn_id == 0 || !old(self)@.turns.contains_key(base_turn_id) {
                        e.kind() == ErrorKind::NotFound
                    } else {
                        e.kind() == ErrorKind::InvalidInput && old(self)@.next_context_id
                            == u64::MAX
                    }
                },
            },
    {
        if base_turn_id == 0 {
            return Err(StoreError::NotFound("base turn".to_string()));
        }
        self.create_context_at(base_turn_id, now_ms)
    }

    /// Forks a context off an existing turn now: see `fork_context_at`.
    pub fn fork_context(&mut self, base_turn_id: u64) -> (r: Result<ContextHead, StoreError>)
        requires
            old(self).wf(),
        ensures
            final(self).wf(),
            chains_ok(old(self)@) ==> chains_ok(final(self)@),
            match r {
                Ok(head) => {
                    &&& base_turn_id != 0
                    &&& old(self)@.turns.contains_key(base_turn_id)
                    &&& old(self)@.next_context_id < u64::MAX
                    &&& !old(self)@.heads.contains_key(head.context_id)
                    &&& head == created_head(old(self)@, base_turn_id, head.created_at_unix_ms)
                    &&& final(self)@ == view_after_create(old(self)@, head)
                },
                Err(e) => {
                    &&& final(self)@ == old(self)@
                    &&& if base_turn_id == 0 || !old(self)@.turns.contains_key(base_turn_id) {
                        e.kind() == ErrorKind::NotFound
                    } else {
                        e.kind() == ErrorKind::InvalidInput && old(self)@.next_context_id
                            == u64::MAX
                    }
                },
            },
    {
        let now_ms = now_unix_ms();
        self.fork_context_at(base_turn_id, now_ms)
    }

    /// Appends a turn to a context at the time `now_ms`.
    ///
    /// With `parent_turn_id` 0 the new turn follows the head of the context,
    /// or is a root where the context is empty; otherwise it follows the turn
    /// named. It gets the next turn id and a depth one above its parent's.
    /// The log, the index, the metadata side-file and the head table each
    /// grow by one entry, and the context's head becomes the new turn.
    ///
    /// Fails with `NotFound` where `resolve_parent` finds no parent, and with
    /// `InvalidInput` where `append_out_of_range` holds; the store is then
    /// unchanged.
    pub fn append_turn_at(
        &mut self,
        context_id: u64,
        parent_turn_id: u64,
        payload_hash: [u8; 32],
        encoding: u32,
        declared_type_id: String,
        declared_type_version: u32,
        compression: u32,
        uncompressed_len: u32,
        now_ms: u64,
    ) -> (r: Result<TurnRecord, StoreError>)
        requires
            old(self).wf(),
        ensures
            final(self).wf(),
            chains_ok(old(self)@) ==> chains_ok(final(self)@),
            match resolve_parent(old(self)@, context_id, parent_turn_id) {
                None => r is Err && r.unwrap_err().kind() == ErrorKind::NotFound,
                Some(parent) => if append_out_of_range(old(self)@, parent, declared_type_id@) {
                    r is Err && r.unwrap_err().kind() == ErrorKind::InvalidInput
                } else {
                    r is Ok && r.unwrap() == appended_record(
                        old(self)@,
                        parent,
                        payload_hash,
                        encoding,
                        now_ms,
                    )
                },
            },
            match r {
                Ok(record) => final(self)@ == view_after_append(
                    old(self)@,
                    context_id,
                    record,
                    TurnMetaView {
                        declared_type_id: declared_type_id@,
                        declared_type_version,
                        encoding,
                        compression,
                        uncompressed_len,
                    },
                ),
                Err(_) => final(self)@ == old(self)@,
            },
    {
        let parent = match self.find_parent(context_id, parent_turn_id) {
            Ok(parent) => parent,
            Err(e) => {
                return Err(e);
            },
        };
        let (parent_id, depth): (u64, u32) = match parent {
            Some(p) => {
                if p.depth == u32::MAX {
                    return Err(StoreError::InvalidInput("turn depth out of range".to_string()));
                }
                (p.turn_id, p.depth + 1)
            },
            None => (0, 0),
        };
        if self.next_turn_id == u64::MAX {
            return Err(StoreError::InvalidInput("turn id space exhausted".to_string()));
        }
        let id_len = declared_type_id.as_str().as_bytes().len();
        if id_len > u32::MAX as usize {
            return Err(StoreError::InvalidInput("type id too long".to_string()));
        }
        let record = TurnRecord {
            turn_id: self.next_turn_id,
            parent_turn_id: parent_id,
            depth,
            codec: encoding,
            type_tag: 0,
            payload_hash,
            flags: 0,
            created_at_unix_ms: now_ms,
        };
        let meta = TurnMeta {
            declared_type_id,
            declared_type_version,
            encoding,
            compression,
            uncompressed_len,
        };
        let head = ContextHead {
            context_id,
            head_turn_id: record.turn_id,
            head_depth: depth,
            created_at_unix_ms: now_ms,
            flags: 0,
        };
        proof {
            if chains_ok(self@) {
                lemma_append_keeps_chains(
                    self@,
                    context_id,
                    parent,
                    payload_hash,
                    encoding,
                    now_ms,
                    meta@,
                );
            }
        }
        self.write_turn(&record);
        self.write_meta(record.turn_id, meta);
        proof {
            lemma_heads_append(self.heads_tbl@, head);
        }
        self.write_head(&head);
        self.put_head(head);
        Ok(record)
    }

    /// Resolves the parent of an append: see `resolve_parent`.
    fn find_parent(&self, context_id: u64, parent_turn_id: u64) -> (r: Result<
        Option<TurnRecord>,
        StoreError,
    >)
        ensures
            match r {
                Ok(parent) => resolve_parent(self@, context_id, parent_turn_id) == Some(parent),
                Err(e) => resolve_parent(self@, context_id, parent_turn_id) is None && e.kind()
                    == ErrorKind::NotFound,
            },
    {
        let head = match self.heads.get(&context_id) {
            Some(head) => head,
            None => {
                return Err(StoreError::NotFound("context".to_string()));
            },
        };
        if parent_turn_id != 0 {
            match self.turns.get(&parent_turn_id) {
                Some(parent) => Ok(Some(*parent)),
                None => Err(StoreError::NotFound("parent turn".to_string())),
            }
        } else if head.head_turn_id == 0 {
            Ok(None)
        } else {
            match self.turns.get(&head.head_turn_id) {
                Some(parent) => Ok(Some(*parent)),
                None => Err(StoreError::NotFound("head turn".to_string())),
            }
        }
    }

    /// Appends a record to the log and the index, and files it under its id.
    fn write_turn(&mut self, record: &TurnRecord)
        requires
            old(self).wf(),
            record.turn_id == old(self).next_turn_id,
            record.turn_id < u64::MAX,
        ensures
            final(self).wf(),
            final(self)@ == (TurnStoreView {
                turns: old(self)@.turns.insert(record.turn_id, *record),
                log: old(self)@.log + turn_record_bytes(*record),
                index: old(self)@.index + spec_u64_to_le_bytes(record.turn_id)
                    + spec_u64_to_le_bytes(old(self)@.log.len() as u64),
                next_turn_id: (record.turn_id + 1) as u64,
                ..old(self)@
            }),
    {
        proof {
            lemma_turn_log_append(self.log@, *record);
            lemma_auto_spec_u64_to_from_le_bytes();
        }
        let offset = self.log.len();
        let bytes = encode_turn_record(record);
        self.log.extend_from_slice(bytes.as_slice());
        put_u64_le(&mut self.idx, record.turn_id);
        put_u64_le(&mut self.idx, offset as u64);
        self.turns.insert(record.turn_id, *record);
        self.next_turn_id = record.turn_id + 1;
        assert(self@.log == old(self)@.log + turn_record_bytes(*record));
        assert(self@.index == old(self)@.index + spec_u64_to_le_bytes(record.turn_id)
                    + spec_u64_to_le_bytes(old(self)@.log.len() as u64));
        assert(self@.turns == old(self)@.turns.insert(record.turn_id, *record));
        assert(self@.metas == old(self)@.metas);
        assert(self@.heads == old(self)@.heads);
    }

    /// Appends an entry to the metadata side-file, and files it under the
    /// turn id.
    fn write_meta(&mut self, turn_id: u64, meta: TurnMeta)
        requires
            old(self).wf(),
            vstd::utf8::encode_utf8(meta@.declared_type_id).len() <= u32::MAX,
        ensures
            final(self).wf(),
            final(self)@ == (TurnStoreView {
                metas: old(self)@.metas.insert(turn_id, meta@),
                meta_log: old(self)@.meta_log + meta_entry_bytes(turn_id, meta@),
                ..old(self)@
            }),
    {
        proof {
            lemma_meta_append(self.meta@, turn_id, meta@);
        }
        let id_bytes = meta.declared_type_id.as_str().as_bytes();
        put_u64_le(&mut self.meta, turn_id);
        put_u32_le(&mut self.meta, id_bytes.len() as u32);
        self.meta.extend_from_slice(id_bytes);
        put_u32_le(&mut self.meta, meta.declared_type_version);
        put_u32_le(&mut self.meta, meta.encoding);
        put_u32_le(&mut self.meta, meta.compression);
        put_u32_le(&mut self.meta, meta.uncompressed_len);
        assert(self.meta@ =~= old(self).meta@ + meta_entry_bytes(turn_id, meta@));
        let ghost metas_before = self.turn_meta@;
        let ghost view = meta@;
        self.turn_meta.insert(turn_id, meta);
        assert(meta_views(self.turn_meta@) =~= meta_views(metas_before).insert(turn_id, view));
    }

    /// Appends a turn to a context now: see `append_turn_at`.
    pub fn append_turn(
        &mut self,
        context_id: u64,
        parent_turn_id: u64,
        payload_hash: [u8; 32],
        encoding: u32,
        declared_type_id: String,
        declared_type_version: u32,
        compression: u32,
        uncompressed_len: u32,
    ) -> (r: Result<TurnRecord, StoreError>)
        requires
            old(self).wf(),
        ensures
            final(self).wf(),
            chains_ok(old(self)@) ==> chains_ok(final(self)@),
            match resolve_parent(old(self)@, context_id, parent_turn_id) {
                None => r is Err && r.unwrap_err().kind() == ErrorKind::NotFound,
                Some(parent) => if append_out_of_range(old(self)@, parent, declared_type_id@) {
                    r is Err && r.unwrap_err().kind() == ErrorKind::InvalidInput
                } else {
                    r is Ok && r.unwrap() == appended_record(
                        old(self)@,
                        parent,
                        payload_hash,
                        encoding,
                        r.unwrap().created_at_unix_ms,
                    )
                },
            },
            match r {
                Ok(record) => final(self)@ == view_after_append(
                    old(self)@,
                    context_id,
                    record,
                    TurnMetaView {
                        declared_type_id: declared_type_id@,
                        declared_type_version,
                        encoding,
                        compression,
                        uncompressed_len,
                    },
                ),
                Err(_) => final(self)@ == old(self)@,
            },
    {
        let now_ms = now_unix_ms();
        self.append_turn_at(
            context_id,
            parent_turn_id,
            payload_hash,
            encoding,
            declared_type_id,
            declared_type_version,
            compression,
            uncompressed_len,
            now_ms,
        )
    }

    /// Walks back from `current` and gives the turns met, ancestors first.
    fn collect_back(&self, from: u64, limit: u32) -> (r: Result<Vec<TurnRecord>, StoreError>)
        ensures
            match r {
                Ok(found) => last_turns(self@.turns, from, limit as nat) == Some(found@),
                Err(e) => last_turns(self@.turns, from, limit as nat) is None && e.kind()
                    == ErrorKind::NotFound,
            },
    {
        let mut results: Vec<TurnRecord> = Vec::new();
        let mut current = from;
        while current != 0 && results.len() < limit as usize
            invariant
                results@.len() <= limit,
                walk_back(self.turns@, current, (limit - results@.len()) as nat, results@)
                    == walk_back(self.turns@, from, limit as nat, Seq::empty()),
            decreases limit - results@.len(),
        {
            match self.turns.get(&current) {
                Some(rec) => {
                    results.push(*rec);
                    current = rec.parent_turn_id;
                },
                None => {
                    return Err(StoreError::NotFound("turn".to_string()));
                },
            }
        }
        Ok(reversed(results))
    }

    /// The last `limit` turns of a context, ancestors first: the chain from
    /// the head back along parent pointers.
    ///
    /// Fails with `NotFound` where the context, or a turn on the way, is
    /// absent.
    pub fn get_last(&self, context_id: u64, limit: u32) -> (r: Result<Vec<TurnRecord>, StoreError>)
        ensures
            match r {
                Ok(found) => spec_get_last(self@, context_id, limit) == Some(found@),
                Err(e) => spec_get_last(self@, context_id, limit) is None && e.kind()
                    == ErrorKind::NotFound,
            },
    {
        let head_turn_id = match self.heads.get(&context_id) {
            Some(head) => head.head_turn_id,
            None => {
                return Err(StoreError::NotFound("context".to_string()));
            },
        };
        self.collect_back(head_turn_id, limit)
    }

    /// The last `limit` turns before a turn, ancestors first: the chain from
    /// the parent of `before_turn_id` back. With `before_turn_id` 0, or an
    /// empty context, the same as `get_last`.
    ///
    /// Fails with `NotFound` where the context, the turn named, or a turn on
    /// the way is absent.
    pub fn get_before(&self, context_id: u64, before_turn_id: u64, limit: u32) -> (r: Result<
        Vec<TurnRecord>,
        StoreError,
    >)
        ensures
            match r {
                Ok(found) => spec_get_before(self@, context_id, before_turn_id, limit) == Some(
                    found@,
                ),
                Err(e) => spec_get_before(self@, context_id, before_turn_id, limit) is None
                    && e.kind() == ErrorKind::NotFound,
            },
    {
        let head_turn_id = match self.heads.get(&context_id) {
            Some(head) => head.head_turn_id,
            None => {
                return Err(StoreError::NotFound("context".to_string()));
            },
        };
        if before_turn_id == 0 || head_turn_id == 0 {
            return self.get_last(context_id, limit);
        }
        let start = match self.turns.get(&before_turn_id) {
            Some(before) => before.parent_turn_id,
            None => {
                return Err(StoreError::NotFound("before turn".to_string()));
            },
        };
        self.collect_back(start, limit)
    }

    /// The first turn of a context: the turn of depth 0 that the chain from
    /// the head reaches.
    ///
    /// Fails with `NotFound` where the context is absent or the chain ends
    /// before a turn of depth 0, and with `Corrupt` where a turn on the chain
    /// is no deeper than its parent.
    pub fn get_first_turn(&self, context_id: u64) -> (r: Result<TurnRecord, StoreError>)
        ensures
            match r {
                Ok(rec) => self@.heads.contains_key(context_id) && first_turn_from(
                    self@.turns,
                    self@.heads[context_id].head_turn_id,
                    0x1_0000_0000,
                ) == FirstTurn::Found(rec),
                Err(e) => if !self@.heads.contains_key(context_id) {
                    e.kind() == ErrorKind::NotFound
                } else {
                    match first_turn_from(
                        self@.turns,
                        self@.heads[context_id].head_turn_id,
                        0x1_0000_0000,
                    ) {
                        FirstTurn::Found(_) => false,
                        FirstTurn::Missing => e.kind() == ErrorKind::NotFound,
                        FirstTurn::Broken => e.kind() == ErrorKind::Corrupt,
                    }
                },
            },
    {
        let mut current = match self.heads.get(&context_id) {
            Some(head) => head.head_turn_id,
            None => {
                return Err(StoreError::NotFound("context".to_string()));
            },
        };
        let ghost start = current;
        let mut bound: u64 = 0x1_0000_0000;
        loop
            invariant
                bound <= 0x1_0000_0000,
                self@.heads.contains_key(context_id),
                start == self@.heads[context_id].head_turn_id,
                first_turn_from(self.turns@, current, bound as nat) == first_turn_from(
                    self.turns@,
                    start,
                    0x1_0000_0000,
                ),
            decreases bound,
        {
            if current == 0 {
                return Err(StoreError::NotFound("first turn".to_string()));
            }
            match self.turns.get(&current) {
                Some(rec) => {
                    if rec.depth as u64 >= bound {
                        return Err(StoreError::Corrupt("turn chain does not descend".to_string()));
                    }
                    if rec.depth == 0 {
                        return Ok(*rec);
                    }
                    bound = rec.depth as u64;
                    current = rec.parent_turn_id;
                },
                None => {
                    return Err(StoreError::NotFound("turn".to_string()));
                },
            }
        }
    }

    /// The contexts that have a head, each once.
    pub fn context_ids(&self) -> (ids: &Vec<u64>)
        ensures
            ids@ == self@.contexts,
    {
        &self.context_order
    }

    /// The heads of the `limit` contexts that were changed last, newest
    /// first.
    pub fn list_recent_contexts(&self, limit: u32) -> (recent: Vec<ContextHead>)
        requires
            self.wf(),
        ensures
            is_recent_contexts(self@, limit, recent@),
    {
        broadcast use vstd::seq_lib::to_multiset_build, vstd::seq_lib::to_multiset_insert;

        let ghost all = heads_in_order(self@);
        let mut out: Vec<ContextHead> = Vec::with_capacity(self.context_order.len());
        let mut i: usize = 0;
        assert(all.take(0) =~= Seq::empty());
        while i < self.context_order.len()
            invariant
                i <= self.context_order.len(),
                self.wf(),
                all == heads_in_order(self@),
                newest_first(out@),
                out@.to_multiset() == all.take(i as int).to_multiset(),
            decreases self.context_order.len() - i,
        {
            assert(self@.contexts.contains(self@.contexts[i as int]));
            if let Some(found) = self.heads.get(&self.context_order[i]) {
                let head = *found;
                let mut p: usize = 0;
                while p < out.len() && out[p].created_at_unix_ms >= head.created_at_unix_ms
                    invariant
                        p <= out.len(),
                        forall|k: int|
                            0 <= k < p ==> out@[k].created_at_unix_ms >= head.created_at_unix_ms,
                    decreases out.len() - p,
                {
                    p += 1;
                }
                let ghost before = out@;
                out.insert(p, head);
                proof {
                    assert(out@ == before.insert(p as int, head));
                    vstd::seq_lib::to_multiset_insert(before, p as int, head);
                    assert(all.take(i + 1) =~= all.take(i as int).push(head));
                    vstd::seq_lib::to_multiset_build(all.take(i as int), head);
                    assert forall|a: int, b: int| 0 <= a < b < out@.len() implies out@[a].created_at_unix_ms
                        >= out@[b].created_at_unix_ms by {
                        if b < p {
                            assert(out@[a] == before[a] && out@[b] == before[b]);
                        } else if b == p {
                            assert(out@[a] == before[a]);
                        } else if a < p {
                            assert(out@[a] == before[a] && out@[b] == before[b - 1]);
                            if p < before.len() {
                                assert(before[p as int].created_at_unix_ms < head.created_at_unix_ms);
                            }
                        } else if a == p {
                            assert(out@[b] == before[b - 1]);
                            assert(before[p as int].created_at_unix_ms < head.created_at_unix_ms);
                            assert(before[p as int].created_at_unix_ms >= before[b
                                - 1].created_at_unix_ms || p as int == b - 1);
                        } else {
                            assert(out@[a] == before[a - 1] && out@[b] == before[b - 1]);
                        }
                    }
                }
            }
            i += 1;
        }
        assert(all.take(i as int) =~= all);
        let ghost sorted = out@;
        if (limit as usize) < out.len() {
            out.truncate(limit as usize);
        }
        assert(out@ =~= sorted.take(
            if limit < sorted.len() {
                limit as int
            } else {
                sorted.len() as int
            },
        ));
        out
    }

    /// Appends the record of a head to the image of the head table.
    fn write_head(&mut self, head: &ContextHead)
        ensures
            final(self).heads_tbl@ == old(self).heads_tbl@ + head_record_bytes(*head),
            final(self).log == old(self).log,
            final(self).idx == old(self).idx,
            final(self).meta == old(self).meta,
            final(self).turns == old(self).turns,
            final(self).turn_meta == old(self).turn_meta,
            final(self).heads == old(self).heads,
            final(self).context_order == old(self).context_order,
            final(self).next_turn_id == old(self).next_turn_id,
            final(self).next_context_id == old(self).next_context_id,
    {
        let buf = encode_head_record(head);
        self.heads_tbl.extend_from_slice(buf.as_slice());
    }

    /// Makes a head the head of its context.
    fn put_head(&mut self, head: ContextHead)
        requires
            order_ok(old(self).heads@, old(self).context_order@),
        ensures
            final(self).heads@ == old(self).heads@.insert(head.context_id, head),
            final(self).context_order@ == with_context(
                old(self).heads@,
                old(self).context_order@,
                head.context_id,
            ),
            order_ok(final(self).heads@, final(self).context_order@),
            final(self).heads_tbl == old(self).heads_tbl,
            final(self).log == old(self).log,
            final(self).idx == old(self).idx,
            final(self).meta == old(self).meta,
            final(self).turns == old(self).turns,
            final(self).turn_meta == old(self).turn_meta,
            final(self).next_turn_id == old(self).next_turn_id,
            final(self).next_context_id == old(self).next_context_id,
    {
        proof {
            lemma_order_ok_insert(self.heads@, self.context_order@, head.context_id, head);
        }
        if !self.heads.contains_key(&head.context_id) {
            self.context_order.push(head.context_id);
        }
        self.heads.insert(head.context_id, head);
    }
}

} // verus!
