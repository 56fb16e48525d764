//! The store: the blob store and the turn store composed, with the metadata
//! of each context and the indexes over them.

use crate::blob_store::{
    blob_readable, index_corrupt_at, pack_agrees, replay_index, spec_get_blob, view_after_put,
    BlobRead, BlobStore, BlobStoreStats, BlobStoreView,
};
use crate::error::{ErrorKind, StoreError};
use crate::index::{
    cached_metadata, child_ids, children_of, entry_of, indexes_over, is_descendants, matching,
    search_ids, IndexEntryView, Query, SearchResult, SecondaryIndexes,
};
use crate::metadata::{
    cache_view, clone_opt_metadata, extract_context_metadata, opt_metadata,
    spec_extract_context_metadata, ContextMetadata, ContextMetadataView,
};
use crate::order::strictly_descending;
use crate::registry_types::{
    distinct_tags, lemma_put_tagged_distinct, put_tagged, tagged, tags_of,
};
use crate::text::{find_number_key, last_index_of, number_keys};
use crate::turn_store::{
    append_out_of_range, appended_record, chains_ok, created_head, first_turn_from, heads_keyed,
    images_corrupt, is_recent_contexts, lemma_heads_keyed, opened_view, resolve_parent,
    spec_get_before, spec_get_last,
    view_after_append, view_after_create, ContextHead, FirstTurn, TurnMeta, TurnMetaView,
    TurnRecord, TurnStore, TurnStoreView,
};
use crate::wire::{
    blake3_digest, blake3_hash, hash_eq, now_unix_ms, slice_to_vec, zstd_content, zstd_decode,
};
use vstd::prelude::*;

verus! {

/// A turn with its metadata and, where it was asked for, its payload.
#[derive(Debug)]
pub struct TurnWithMeta {
    pub record: TurnRecord,
    pub meta: TurnMeta,
    pub payload: Option<Vec<u8>>,
}

/// What a `TurnWithMeta` holds.
pub ghost struct TurnWithMetaView {
    pub record: TurnRecord,
    pub meta: TurnMetaView,
    pub payload: Option<Seq<u8>>,
}

impl View for TurnWithMeta {
    type V = TurnWithMetaView;

    open spec fn view(&self) -> TurnWithMetaView {
        TurnWithMetaView {
            record: self.record,
            meta: self.meta@,
            payload: match self.payload {
                Some(p) => Some(p@),
                None => None,
            },
        }
    }
}

/// Counts of what a store holds, and the sizes of its files.
#[derive(Debug, Clone, Copy)]
pub struct StoreStats {
    pub turns_total: usize,
    pub contexts_total: usize,
    pub heads_total: usize,
    pub blobs_total: usize,
    pub turns_log_bytes: u64,
    pub turns_index_bytes: u64,
    pub turns_meta_bytes: u64,
    pub heads_table_bytes: u64,
    pub blobs_pack_bytes: u64,
    pub blobs_index_bytes: u64,
}

/// The store: the blob store and the turn store, the metadata of the
/// contexts that were looked at, in the order in which they were first looked
/// at, and the indexes over them.
pub struct Store {
    blob_store: BlobStore,
    turn_store: TurnStore,
    context_metadata_cache: Vec<(u64, Option<ContextMetadata>)>,
    secondary_indexes: SecondaryIndexes,
}

/// What a store holds.
pub ghost struct StoreView {
    /// The blob store.
    pub blobs: BlobStoreView,
    /// The turn store.
    pub turns: TurnStoreView,
    /// The metadata of the contexts that were looked at, by context id:
    /// `None` for a context whose first turn carries none.
    pub cache: Seq<(u64, Option<ContextMetadataView>)>,
    /// The entries of the secondary indexes, by context id.
    pub indexes: Seq<(u64, IndexEntryView)>,
}

impl View for Store {
    type V = StoreView;

    closed spec fn view(&self) -> StoreView {
        StoreView {
            blobs: self.blob_store@,
            turns: self.turn_store@,
            cache: cache_view(self.context_metadata_cache@),
            indexes: self.secondary_indexes@,
        }
    }
}

/// The raw bytes of a payload as it came over the wire: the payload itself
/// without compression, the content of the frame with zstd, and nothing for
/// another compression or a bad frame.
pub open spec fn raw_payload(compression: u32, payload: Seq<u8>) -> Option<Seq<u8>> {
    if compression == 0 {
        Some(payload)
    } else if compression == 1 {
        zstd_content(payload)
    } else {
        None
    }
}

/// The raw bytes of a payload that is accepted: they have the declared
/// length and the declared hash.
pub open spec fn accepted_payload(
    compression: u32,
    payload: Seq<u8>,
    uncompressed_len: u32,
    content_hash: Seq<u8>,
) -> Option<Seq<u8>> {
    match raw_payload(compression, payload) {
        Some(raw) => if raw.len() == uncompressed_len && blake3_digest(raw) == content_hash {
            Some(raw)
        } else {
            None
        },
        None => None,
    }
}

/// The blob store after a blob was put, unless it was held.
pub open spec fn blobs_after_put(b: BlobStoreView, hash: Seq<u8>, raw: Seq<u8>) -> BlobStoreView {
    if b.index.contains_key(hash) {
        b
    } else {
        view_after_put(b, hash, raw)
    }
}

/// Whether the payload of an append gives a context its metadata: nothing
/// is cached for the context, or the context is empty, so that what is
/// cached says only that it had no first turn.
pub open spec fn takes_metadata(v: StoreView, context_id: u64) -> bool {
    tagged(v.cache, context_id) is None || (v.turns.heads.contains_key(context_id)
        && v.turns.heads[context_id].head_turn_id == 0)
}

/// The metadata that an append gives back: those of the payload, where the
/// payload gives the context its metadata.
pub open spec fn fresh_metadata(v: StoreView, context_id: u64, raw: Seq<u8>) -> Option<
    ContextMetadataView,
> {
    if takes_metadata(v, context_id) {
        spec_extract_context_metadata(raw)
    } else {
        None
    }
}

/// The cache after an append: where the payload gives the context its
/// metadata, they are cached for it, in the place of what was cached.
pub open spec fn cache_after_append(v: StoreView, context_id: u64, raw: Seq<u8>) -> Seq<
    (u64, Option<ContextMetadataView>),
> {
    if takes_metadata(v, context_id) {
        put_tagged(v.cache, context_id, spec_extract_context_metadata(raw))
    } else {
        v.cache
    }
}

/// The indexes after an append: where the append gave metadata back, the
/// context is indexed with them.
pub open spec fn indexes_after_append(
    v: StoreView,
    context_id: u64,
    raw: Seq<u8>,
    created_at: u64,
    depth: u32,
) -> Seq<(u64, IndexEntryView)> {
    match fresh_metadata(v, context_id, raw) {
        Some(m) => put_tagged(v.indexes, context_id, entry_of(Some(m), created_at, depth)),
        None => v.indexes,
    }
}

/// A turn with its metadata and, where it is asked for, its payload: the
/// kind of the failure where the metadata are missing or the payload does
/// not read.
pub open spec fn with_meta(v: StoreView, record: TurnRecord, include_payload: bool) -> Result<
    TurnWithMetaView,
    ErrorKind,
> {
    if !v.turns.metas.contains_key(record.turn_id) {
        Err(ErrorKind::NotFound)
    } else if include_payload {
        match spec_get_blob(v.blobs, record.payload_hash@) {
            BlobRead::Content(raw) => Ok(
                TurnWithMetaView {
                    record,
                    meta: v.turns.metas[record.turn_id],
                    payload: Some(raw),
                },
            ),
            BlobRead::Failure(kind) => Err(kind),
        }
    } else {
        Ok(TurnWithMetaView { record, meta: v.turns.metas[record.turn_id], payload: None })
    }
}

/// The turns of a list with their metadata and payloads, or the failure of
/// the first turn that fails.
pub open spec fn with_meta_all(v: StoreView, records: Seq<TurnRecord>, include_payload: bool) -> Result<
    Seq<TurnWithMetaView>,
    ErrorKind,
>
    decreases records.len(),
{
    if records.len() == 0 {
        Ok(Seq::empty())
    } else {
        match with_meta_all(v, records.drop_last(), include_payload) {
            Ok(front) => match with_meta(v, records.last(), include_payload) {
                Ok(item) => Ok(front.push(item)),
                Err(kind) => Err(kind),
            },
            Err(kind) => Err(kind),
        }
    }
}

/// Where a prefix of the turns fails, all of them fail the same way.
pub proof fn lemma_with_meta_all_fails(
    v: StoreView,
    records: Seq<TurnRecord>,
    include_payload: bool,
    i: int,
)
    requires
        0 <= i <= records.len(),
        with_meta_all(v, records.take(i), include_payload) is Err,
    ensures
        with_meta_all(v, records, include_payload) == with_meta_all(
            v,
            records.take(i),
            include_payload,
        ),
    decreases records.len() - i,
{
    if i < records.len() {
        assert(records.take(i + 1).drop_last() =~= records.take(i));
        lemma_with_meta_all_fails(v, records, include_payload, i + 1);
    } else {
        assert(records.take(i) =~= records);
    }
}

/// The turns of a list with their metadata.
pub open spec fn turns_with_meta_view(items: Seq<TurnWithMeta>) -> Seq<TurnWithMetaView> {
    Seq::new(items.len(), |i: int| items[i]@)
}

/// The metadata that the first turn of a context carries: none where the
/// context has no first turn, its payload does not read, or it carries none.
pub open spec fn loaded_metadata(v: StoreView, context_id: u64) -> Option<ContextMetadataView> {
    if !v.turns.heads.contains_key(context_id) {
        None
    } else {
        match first_turn_from(
            v.turns.turns,
            v.turns.heads[context_id].head_turn_id,
            0x1_0000_0000,
        ) {
            FirstTurn::Found(t) => match spec_get_blob(v.blobs, t.payload_hash@) {
                BlobRead::Content(raw) => spec_extract_context_metadata(raw),
                BlobRead::Failure(_) => None,
            },
            _ => None,
        }
    }
}

/// The metadata of a context as the store knows them: those cached, else
/// those that its first turn carries.
pub open spec fn known_metadata(v: StoreView, context_id: u64) -> Option<ContextMetadataView> {
    match tagged(v.cache, context_id) {
        Some(m) => m,
        None => loaded_metadata(v, context_id),
    }
}

/// The cache after the metadata of a context were looked at.
pub open spec fn cache_after_lookup(v: StoreView, context_id: u64) -> Seq<
    (u64, Option<ContextMetadataView>),
> {
    match tagged(v.cache, context_id) {
        Some(_) => v.cache,
        None => v.cache.push((context_id, loaded_metadata(v, context_id))),
    }
}

/// The images of the files of a store.
#[derive(Debug)]
pub struct StoreImages {
    /// The blob pack.
    pub blobs_pack: Vec<u8>,
    /// The sidecar index of the blob pack.
    pub blobs_idx: Vec<u8>,
    /// The turn log.
    pub turns_log: Vec<u8>,
    /// The metadata side-file of the turn log.
    pub turns_meta: Vec<u8>,
    /// The head table.
    pub heads_tbl: Vec<u8>,
}

/// The cache of a store that was opened: the metadata that the first turn of
/// each context carries, in the order of the contexts.
pub open spec fn loaded_cache(v: StoreView, contexts: Seq<u64>) -> Seq<
    (u64, Option<ContextMetadataView>),
> {
    Seq::new(contexts.len(), |i: int| (contexts[i], loaded_metadata(v, contexts[i])))
}

/// The indexes of a store that was opened, after the first `n` contexts
/// were added: each with the metadata that its first turn carries, the time
/// of its head and the depth of its head.
pub open spec fn built_indexes(v: StoreView, contexts: Seq<u64>, n: nat) -> Seq<
    (u64, IndexEntryView),
>
    decreases n,
{
    if n == 0 || n > contexts.len() {
        Seq::empty()
    } else {
        let c = contexts[n - 1];
        put_tagged(
            built_indexes(v, contexts, (n - 1) as nat),
            c,
            entry_of(
                loaded_metadata(v, c),
                v.turns.heads[c].created_at_unix_ms,
                v.turns.heads[c].head_depth,
            ),
        )
    }
}

/// Whether a store is what opening these images gives: the blob index and
/// the turn store replayed, the metadata of every context loaded and
/// indexed.
pub open spec fn opened_store(
    pack: Seq<u8>,
    idx: Seq<u8>,
    log: Seq<u8>,
    meta: Seq<u8>,
    heads: Seq<u8>,
    v: StoreView,
) -> bool {
    &&& v.blobs.index == replay_index(idx).0
    &&& v.blobs.index_log == idx.subrange(0, replay_index(idx).1)
    &&& v.blobs.pack == pack
    &&& opened_view(log, meta, heads, v.turns)
    &&& v.cache == loaded_cache(v, v.turns.contexts)
    &&& v.indexes == built_indexes(v, v.turns.contexts, v.turns.contexts.len())
}

/// What is appended: the turn as it is declared, and its payload as it came
/// over the wire.
pub ghost struct AppendArgs {
    pub context_id: u64,
    pub parent_turn_id: u64,
    pub declared_type_id: Seq<char>,
    pub declared_type_version: u32,
    pub encoding: u32,
    pub compression: u32,
    pub uncompressed_len: u32,
    pub content_hash: [u8; 32],
    pub payload: Seq<u8>,
    pub now_ms: u64,
}

/// What is appended, put together.
pub open spec fn append_args(
    context_id: u64,
    parent_turn_id: u64,
    declared_type_id: Seq<char>,
    declared_type_version: u32,
    encoding: u32,
    compression: u32,
    uncompressed_len: u32,
    content_hash: [u8; 32],
    payload: Seq<u8>,
    now_ms: u64,
) -> AppendArgs {
    AppendArgs {
        context_id,
        parent_turn_id,
        declared_type_id,
        declared_type_version,
        encoding,
        compression,
        uncompressed_len,
        content_hash,
        payload,
        now_ms,
    }
}

/// The metadata that are recorded beside an appended turn.
pub open spec fn declared_meta(a: AppendArgs) -> TurnMetaView {
    TurnMetaView {
        declared_type_id: a.declared_type_id,
        declared_type_version: a.declared_type_version,
        encoding: a.encoding,
        compression: a.compression,
        uncompressed_len: a.uncompressed_len,
    }
}

/// What an append gives: the record of the turn and the metadata of the
/// context where they are new, or the kind of the failure. The payload must
/// be accepted, the parent must resolve, and the turn must be in range.
pub open spec fn append_result(v: StoreView, a: AppendArgs) -> Result<
    (TurnRecord, Option<ContextMetadataView>),
    ErrorKind,
> {
    match accepted_payload(a.compression, a.payload, a.uncompressed_len, a.content_hash@) {
        None => Err(ErrorKind::InvalidInput),
        Some(raw) => match resolve_parent(v.turns, a.context_id, a.parent_turn_id) {
            None => Err(ErrorKind::NotFound),
            Some(parent) => if append_out_of_range(v.turns, parent, a.declared_type_id) {
                Err(ErrorKind::InvalidInput)
            } else {
                Ok(
                    (
                        appended_record(v.turns, parent, a.content_hash, a.encoding, a.now_ms),
                        fresh_metadata(v, a.context_id, raw),
                    ),
                )
            },
        },
    }
}

/// The store after an append. A payload that is not accepted changes
/// nothing. An accepted payload is stored; where the turn is appended, the
/// metadata of the context are cached and, where they are new, indexed.
pub open spec fn store_after_append(v: StoreView, a: AppendArgs) -> StoreView {
    match accepted_payload(a.compression, a.payload, a.uncompressed_len, a.content_hash@) {
        None => v,
        Some(raw) => {
            let blobs = blobs_after_put(v.blobs, a.content_hash@, raw);
            match append_result(v, a) {
                Ok((record, _)) => StoreView {
                    blobs,
                    turns: view_after_append(v.turns, a.context_id, record, declared_meta(a)),
                    cache: cache_after_append(v, a.context_id, raw),
                    indexes: indexes_after_append(
                        v,
                        a.context_id,
                        raw,
                        a.now_ms,
                        record.depth,
                    ),
                },
                Err(_) => StoreView { blobs, ..v },
            }
        },
    }
}

/// The first turn of a context whose metadata name a parent context makes
/// the context a child of that parent: the append gives the metadata back,
/// whatever was cached for the empty context, and the children of the
/// parent then hold the context.
pub proof fn lemma_first_turn_links_child(v: StoreView, a: AppendArgs, parent: u64)
    requires
        append_result(v, a) is Ok,
        v.turns.heads.contains_key(a.context_id),
        v.turns.heads[a.context_id].head_turn_id == 0,
        spec_extract_context_metadata(
            accepted_payload(a.compression, a.payload, a.uncompressed_len, a.content_hash@).unwrap(),
        ) is Some,
        spec_extract_context_metadata(
            accepted_payload(a.compression, a.payload, a.uncompressed_len, a.content_hash@).unwrap(),
        ).unwrap().provenance is Some,
        spec_extract_context_metadata(
            accepted_payload(a.compression, a.payload, a.uncompressed_len, a.content_hash@).unwrap(),
        ).unwrap().provenance.unwrap().parent_context_id == Some(parent),
    ensures
        append_result(v, a).unwrap().1 == spec_extract_context_metadata(
            accepted_payload(a.compression, a.payload, a.uncompressed_len, a.content_hash@).unwrap(),
        ),
        children_of(store_after_append(v, a).indexes, parent).contains(a.context_id),
{
    let raw = accepted_payload(
        a.compression,
        a.payload,
        a.uncompressed_len,
        a.content_hash@,
    ).unwrap();
    let record = append_result(v, a).unwrap().0;
    let m = spec_extract_context_metadata(raw).unwrap();
    assert(takes_metadata(v, a.context_id));
    crate::index::lemma_added_child(
        v.indexes,
        a.context_id,
        entry_of(Some(m), a.now_ms, record.depth),
        parent,
    );
}

/// An append whose payload does not have the declared length fails with
/// `InvalidInput` and leaves the store unchanged.
pub proof fn lemma_length_mismatch_rejected(v: StoreView, a: AppendArgs)
    requires
        raw_payload(a.compression, a.payload) is Some,
        raw_payload(a.compression, a.payload).unwrap().len() != a.uncompressed_len,
    ensures
        append_result(v, a) == Err::<(TurnRecord, Option<ContextMetadataView>), ErrorKind>(
            ErrorKind::InvalidInput,
        ),
        store_after_append(v, a) == v,
{
}

/// Whether every blob is stored under the hash of its content, and the
/// payload of every turn is stored.
pub open spec fn content_addressed(v: StoreView) -> bool {
    &&& forall|h: Seq<u8>| #[trigger]
        v.blobs.index.contains_key(h) ==> spec_get_blob(v.blobs, h) is Content && blake3_digest(
            spec_get_blob(v.blobs, h)->Content_0,
        ) == h
    &&& forall|t: u64| #[trigger]
        v.turns.turns.contains_key(t) ==> v.blobs.index.contains_key(
            v.turns.turns[t].payload_hash@,
        )
}

/// In a content-addressed store, the payload of every turn reads back, and
/// its hash is the payload hash of the turn.
pub proof fn lemma_payload_hash(v: StoreView, turn_id: u64)
    requires
        content_addressed(v),
        v.turns.turns.contains_key(turn_id),
    ensures
        spec_get_blob(v.blobs, v.turns.turns[turn_id].payload_hash@) is Content,
        blake3_digest(spec_get_blob(v.blobs, v.turns.turns[turn_id].payload_hash@)->Content_0)
            == v.turns.turns[turn_id].payload_hash@,
{
}

/// Whether every context stands once in the cache and once in the indexes.
pub open spec fn once_each(v: StoreView) -> bool {
    distinct_tags(v.cache) && distinct_tags(v.indexes)
}

impl Store {
    /// Whether both stores are well-formed, and every context stands once
    /// in the cache and once in the indexes.
    pub closed spec fn wf(&self) -> bool {
        self.blob_store.wf() && self.turn_store.wf() && once_each(self@)
    }

    /// In a well-formed store every context stands once in the cache and
    /// once in the indexes.
    pub proof fn lemma_once_each(&self)
        requires
            self.wf(),
        ensures
            once_each(self@),
    {
    }

    /// A store that holds nothing, over empty images.
    pub fn new() -> (store: Store)
        ensures
            store.wf(),
            store@.turns.turns == Map::<u64, TurnRecord>::empty(),
            store@.turns.heads == Map::<u64, ContextHead>::empty(),
            store@.blobs.index == Map::<Seq<u8>, crate::blob_store::BlobIndexEntry>::empty(),
            store@.cache.len() == 0,
            store@.indexes.len() == 0,
            once_each(store@),
            content_addressed(store@),
            chains_ok(store@.turns),
    {
        let store = Store {
            blob_store: BlobStore::new(),
            turn_store: TurnStore::new(),
            context_metadata_cache: Vec::new(),
            secondary_indexes: SecondaryIndexes::new(),
        };
        assert(cache_view(store.context_metadata_cache@) =~= Seq::empty());
        store
    }

    /// The blob store, to read its images from.
    pub fn blob_store(&self) -> (b: &BlobStore)
        ensures
            b@ == self@.blobs,
            self.wf() ==> b.wf(),
    {
        &self.blob_store
    }

    /// The turn store, to read its images from.
    pub fn turn_store(&self) -> (t: &TurnStore)
        ensures
            t@ == self@.turns,
            self.wf() ==> t.wf(),
    {
        &self.turn_store
    }

    /// Starts a context: see `TurnStore::create_context`.
    pub fn create_context(&mut self, base_turn_id: u64) -> (r: Result<ContextHead, StoreError>)
        requires
            old(self).wf(),
        ensures
            final(self).wf(),
            final(self)@.blobs == old(self)@.blobs,
            final(self)@.cache == old(self)@.cache,
            final(self)@.indexes == old(self)@.indexes,
            content_addressed(old(self)@) ==> content_addressed(final(self)@),
            chains_ok(old(self)@.turns) ==> chains_ok(final(self)@.turns),
            match r {
                Ok(head) => {
                    &&& base_turn_id == 0 || old(self)@.turns.turns.contains_key(base_turn_id)
                    &&& old(self)@.turns.next_context_id < u64::MAX
                    &&& !old(self)@.turns.heads.contains_key(head.context_id)
                    &&& head == created_head(old(self)@.turns, base_turn_id, head.created_at_unix_ms)
                    &&& final(self)@.turns == view_after_create(old(self)@.turns, head)
                },
                Err(e) => {
                    &&& final(self)@.turns == old(self)@.turns
                    &&& if base_turn_id != 0 && !old(self)@.turns.turns.contains_key(base_turn_id) {
                        e.kind() == ErrorKind::NotFound
                    } else {
                        e.kind() == ErrorKind::InvalidInput && old(self)@.turns.next_context_id
                            == u64::MAX
                    }
                },
            },
    {
        let r = self.turn_store.create_context(base_turn_id);
        proof {
            assert(self@.turns.turns == old(self)@.turns.turns);
            assert(self@.blobs == old(self)@.blobs);
        }
        r
    }

    /// Starts a context at the time `now_ms`: see
    /// `TurnStore::create_context_at`.
    pub fn create_context_at(&mut self, base_turn_id: u64, now_ms: u64) -> (r: Result<ContextHead, StoreError>)
        requires
            old(self).wf(),
        ensures
            final(self).wf(),
            final(self)@.blobs == old(self)@.blobs,
            final(self)@.cache == old(self)@.cache,
            final(self)@.indexes == old(self)@.indexes,
            content_addressed(old(self)@) ==> content_addressed(final(self)@),
            chains_ok(old(self)@.turns) ==> chains_ok(final(self)@.turns),
            match r {
                Ok(head) => {
                    &&& base_turn_id == 0 || old(self)@.turns.turns.contains_key(base_turn_id)
                    &&& old(self)@.turns.next_context_id < u64::MAX
                    &&& !old(self)@.turns.heads.contains_key(head.context_id)
                    &&& head == created_head(old(self)@.turns, base_turn_id, now_ms)
                    &&& final(self)@.turns == view_after_create(old(self)@.turns, head)
                },
                Err(e) => {
                    &&& final(self)@.turns == old(self)@.turns
                    &&& if base_turn_id != 0 && !old(self)@.turns.turns.contains_key(base_turn_id) {
                        e.kind() == ErrorKind::NotFound
                    } else {
                        e.kind() == ErrorKind::InvalidInput && old(self)@.turns.next_context_id
                            == u64::MAX
                    }
                },
            },
    {
        let r = self.turn_store.create_context_at(base_turn_id, now_ms);
        proof {
            assert(self@.turns.turns == old(self)@.turns.turns);
            assert(self@.blobs == old(self)@.blobs);
        }
        r
    }

    /// Forks a context off an existing turn: see `TurnStore::fork_context`.
    pub fn fork_context(&mut self, base_turn_id: u64) -> (r: Result<ContextHead, StoreError>)
        requires
            old(self).wf(),
        ensures
            final(self).wf(),
            final(self)@.blobs == old(self)@.blobs,
            final(self)@.cache == old(self)@.cache,
            final(self)@.indexes == old(self)@.indexes,
            content_addressed(old(self)@) ==> content_addressed(final(self)@),
            chains_ok(old(self)@.turns) ==> chains_ok(final(self)@.turns),
            match r {
                Ok(head) => {
                    &&& base_turn_id != 0
                    &&& old(self)@.turns.turns.contains_key(base_turn_id)
                    &&& old(self)@.turns.next_context_id < u64::MAX
                    &&& !old(self)@.turns.heads.contains_key(head.context_id)
                    &&& head == created_head(old(self)@.turns, base_turn_id, head.created_at_unix_ms)
                    &&& final(self)@.turns == view_after_create(old(self)@.turns, head)
                },
                Err(e) => {
                    &&& final(self)@.turns == old(self)@.turns
                    &&& if base_turn_id == 0 || !old(self)@.turns.turns.contains_key(base_turn_id) {
                        e.kind() == ErrorKind::NotFound
                    } else {
                        e.kind() == ErrorKind::InvalidInput && old(self)@.turns.next_context_id
                            == u64::MAX
                    }
                },
            },
    {
        let r = self.turn_store.fork_context(base_turn_id);
        proof {
            assert(self@.turns.turns == old(self)@.turns.turns);
            assert(self@.blobs == old(self)@.blobs);
        }
        r
    }

    /// Forks a context off an existing turn at the time `now_ms`: see
    /// `TurnStore::fork_context_at`.
    pub fn fork_context_at(&mut self, base_turn_id: u64, now_ms: u64) -> (r: Result<ContextHead, StoreError>)
        requires
            old(self).wf(),
        ensures
            final(self).wf(),
            final(self)@.blobs == old(self)@.blobs,
            final(self)@.cache == old(self)@.cache,
            final(self)@.indexes == old(self)@.indexes,
            content_addressed(old(self)@) ==> content_addressed(final(self)@),
            chains_ok(old(self)@.turns) ==> chains_ok(final(self)@.turns),
            match r {
                Ok(head) => {
                    &&& base_turn_id != 0
                    &&& old(self)@.turns.turns.contains_key(base_turn_id)
                    &&& old(self)@.turns.next_context_id < u64::MAX
                    &&& !old(self)@.turns.heads.contains_key(head.context_id)
                    &&& head == created_head(old(self)@.turns, base_turn_id, now_ms)
                    &&& final(self)@.turns == view_after_create(old(self)@.turns, head)
                },
                Err(e) => {
                    &&& final(self)@.turns == old(self)@.turns
                    &&& if base_turn_id == 0 || !old(self)@.turns.turns.contains_key(base_turn_id) {
                        e.kind() == ErrorKind::NotFound
                    } else {
                        e.kind() == ErrorKind::InvalidInput && old(self)@.turns.next_context_id
                            == u64::MAX
                    }
                },
            },
    {
        let r = self.turn_store.fork_context_at(base_turn_id, now_ms);
        proof {
            assert(self@.turns.turns == old(self)@.turns.turns);
            assert(self@.blobs == old(self)@.blobs);
        }
        r
    }

    /// The head of a context: see `TurnStore::get_head`.
    pub fn get_head(&self, context_id: u64) -> (r: Result<ContextHead, StoreError>)
        ensures
            match r {
                Ok(head) => self@.turns.heads.contains_key(context_id) && head
                    == self@.turns.heads[context_id],
                Err(e) => !self@.turns.heads.contains_key(context_id) && e.kind()
                    == ErrorKind::NotFound,
            },
    {
        self.turn_store.get_head(context_id)
    }

    /// The bytes of a blob: see `BlobStore::get`.
    pub fn get_blob(&self, hash: &[u8; 32]) -> (r: Result<Vec<u8>, StoreError>)
        requires
            self.wf(),
        ensures
            match r {
                Ok(raw) => spec_get_blob(self@.blobs, hash@) == BlobRead::Content(raw@),
                Err(e) => spec_get_blob(self@.blobs, hash@) == BlobRead::Failure(e.kind()),
            },
    {
        self.blob_store.get(hash)
    }

    /// The heads of the contexts that were changed last: see
    /// `TurnStore::list_recent_contexts`.
    pub fn list_recent_contexts(&self, limit: u32) -> (recent: Vec<ContextHead>)
        requires
            self.wf(),
        ensures
            is_recent_contexts(self@.turns, limit, recent@),
    {
        self.turn_store.list_recent_contexts(limit)
    }

    /// The direct children of a context, by descending id: the contexts
    /// whose first turn names it as their parent.
    pub fn child_context_ids(&self, parent_context_id: u64) -> (children: Vec<u64>)
        ensures
            children@ == child_ids(self@.indexes, parent_context_id),
            forall|c: u64|
                children@.contains(c) == children_of(self@.indexes, parent_context_id).contains(
                    c,
                ),
            self.wf() ==> strictly_descending(children@),
    {
        self.secondary_indexes.child_context_ids(parent_context_id)
    }

    /// The descendants of a context: see
    /// `SecondaryIndexes::descendant_context_ids`.
    pub fn descendant_context_ids(&self, parent_context_id: u64, limit: Option<u32>) -> (found: Vec<
        u64,
    >)
        ensures
            is_descendants(self@.indexes, parent_context_id, limit, found@),
            limit is None ==> forall|c: u64|
                children_of(self@.indexes, parent_context_id).contains(c) ==> found@.contains(c),
            limit is None ==> forall|x: u64, c: u64|
                found@.contains(x) && children_of(self@.indexes, x).contains(c)
                    ==> found@.contains(c),
            limit is Some ==> found@.len() <= limit.unwrap(),
            strictly_descending(found@),
    {
        self.secondary_indexes.descendant_context_ids(parent_context_id, limit)
    }

    /// Searches the contexts with a parsed query: those of which it holds, by
    /// descending id, up to the limit, with their number before the limit and
    /// the time the search took.
    pub fn search_contexts_parsed(&self, query: &Query, live_contexts: &Vec<u64>, limit: Option<
        u32,
    >) -> (r: SearchResult)
        ensures
            r.context_ids@ == search_ids(self@.indexes, *query, live_contexts@, limit),
            r.total_count == matching(self@.indexes, *query, live_contexts@).len(),
    {
        let start = now_unix_ms();
        let mut r = self.secondary_indexes.search(query, live_contexts, limit, 0);
        let end = now_unix_ms();
        r.elapsed_ms = if end >= start {
            end - start
        } else {
            0
        };
        r
    }

    /// Counts of what the store holds, and the sizes of its images.
    pub fn stats(&self) -> (stats: StoreStats)
        requires
            self.wf(),
        ensures
            stats.turns_total == self@.turns.turns.dom().len(),
            stats.contexts_total == self@.turns.heads.dom().len(),
            stats.heads_total == self@.turns.heads.dom().len(),
            stats.blobs_total == self@.blobs.index.dom().len(),
            stats.turns_log_bytes == self@.turns.log.len(),
            stats.turns_index_bytes == self@.turns.index.len(),
            stats.turns_meta_bytes == self@.turns.meta_log.len(),
            stats.heads_table_bytes == self@.turns.heads_log.len(),
            stats.blobs_pack_bytes == self@.blobs.pack.len(),
            stats.blobs_index_bytes == self@.blobs.index_log.len(),
    {
        let blob_stats = self.blob_store.stats();
        let turn_stats = self.turn_store.stats();
        StoreStats {
            turns_total: turn_stats.turns_total,
            contexts_total: turn_stats.contexts_total,
            heads_total: turn_stats.heads_total,
            blobs_total: blob_stats.blobs_total,
            turns_log_bytes: turn_stats.turns_log_bytes,
            turns_index_bytes: turn_stats.turns_index_bytes,
            turns_meta_bytes: turn_stats.turns_meta_bytes,
            heads_table_bytes: turn_stats.heads_table_bytes,
            blobs_pack_bytes: blob_stats.pack_bytes,
            blobs_index_bytes: blob_stats.idx_bytes,
        }
    }
}

impl Store {
    fn find_cached(&self, context_id: u64) -> (place: Option<usize>)
        ensures
            match place {
                Some(i) => i < self.context_metadata_cache.len() && last_index_of(
                    tags_of(self@.cache),
                    context_id,
                ) == Some(i as int),
                None => last_index_of(tags_of(self@.cache), context_id) is None,
            },
    {
        assert(tags_of(self@.cache) =~= number_keys(self.context_metadata_cache@));
        find_number_key(&self.context_metadata_cache, context_id)
    }

    /// The metadata of a context: those cached or, where it was not looked
    /// at before, those that its first turn carries, which are then cached.
    pub fn get_context_metadata(&mut self, context_id: u64) -> (m: Option<ContextMetadata>)
        requires
            old(self).wf(),
        ensures
            final(self).wf(),
            opt_metadata(m) == known_metadata(old(self)@, context_id),
            final(self)@ == (StoreView {
                cache: cache_after_lookup(old(self)@, context_id),
                ..old(self)@
            }),
            once_each(final(self)@),
    {
        if let Some(i) = self.find_cached(context_id) {
            return clone_opt_metadata(&self.context_metadata_cache[i].1);
        }
        let metadata = self.load_context_metadata(context_id);
        let copy = clone_opt_metadata(&metadata);
        let ghost before = cache_view(self.context_metadata_cache@);
        proof {
            lemma_put_tagged_distinct(before, context_id, opt_metadata(copy));
        }
        self.context_metadata_cache.push((context_id, metadata));
        assert(cache_view(self.context_metadata_cache@) =~= before.push(
            (context_id, opt_metadata(copy)),
        ));
        copy
    }

    /// The metadata that the first turn of a context carries.
    fn load_context_metadata(&self, context_id: u64) -> (m: Option<ContextMetadata>)
        requires
            self.wf(),
        ensures
            opt_metadata(m) == loaded_metadata(self@, context_id),
    {
        let first_turn = match self.turn_store.get_first_turn(context_id) {
            Ok(t) => t,
            Err(_) => {
                return None;
            },
        };
        match self.blob_store.get(&first_turn.payload_hash) {
            Ok(payload) => extract_context_metadata(payload.as_slice()),
            Err(_) => None,
        }
    }

    /// Caches the metadata of the payload for a context that has none
    /// cached or, with `was_empty`, had no first turn, and gives them back.
    fn maybe_cache_metadata(&mut self, context_id: u64, payload: &[u8], was_empty: bool) -> (m:
        Option<ContextMetadata>)
        ensures
            opt_metadata(m) == if tagged(old(self)@.cache, context_id) is None || was_empty {
                spec_extract_context_metadata(payload@)
            } else {
                None
            },
            final(self)@ == (StoreView {
                cache: if tagged(old(self)@.cache, context_id) is None || was_empty {
                    put_tagged(
                        old(self)@.cache,
                        context_id,
                        spec_extract_context_metadata(payload@),
                    )
                } else {
                    old(self)@.cache
                },
                ..old(self)@
            }),
            final(self).blob_store == old(self).blob_store,
            final(self).turn_store == old(self).turn_store,
            distinct_tags(old(self)@.cache) ==> distinct_tags(final(self)@.cache),
    {
        proof {
            if distinct_tags(self@.cache) {
                lemma_put_tagged_distinct(
                    self@.cache,
                    context_id,
                    spec_extract_context_metadata(payload@),
                );
            }
        }
        let place = self.find_cached(context_id);
        if place.is_some() && !was_empty {
            return None;
        }
        let metadata = extract_context_metadata(payload);
        let copy = clone_opt_metadata(&metadata);
        let ghost before = cache_view(self.context_metadata_cache@);
        match place {
            Some(at) => {
                self.context_metadata_cache[at] = (context_id, metadata);
                assert(cache_view(self.context_metadata_cache@) =~= before.update(
                    at as int,
                    (context_id, opt_metadata(copy)),
                ));
            },
            None => {
                self.context_metadata_cache.push((context_id, metadata));
                assert(cache_view(self.context_metadata_cache@) =~= before.push(
                    (context_id, opt_metadata(copy)),
                ));
            },
        }
        copy
    }

    /// Puts a blob under its hash, after checking that the hash is the
    /// BLAKE3 hash of the bytes. Gives whether the blob was new. A new blob
    /// then reads back as it was put, and every blob that read back before
    /// still does.
    ///
    /// Fails with `InvalidInput` where the hash is another or the blob is too
    /// long; the store is then unchanged.
    pub fn put_blob(&mut self, hash: [u8; 32], data: &[u8]) -> (r: Result<bool, StoreError>)
        requires
            old(self).wf(),
        ensures
            final(self).wf(),
            content_addressed(old(self)@) ==> content_addressed(final(self)@),
            if blake3_digest(data@) != hash@ || (data@.len() > u32::MAX
                && !old(self)@.blobs.index.contains_key(hash@)) {
                &&& r is Err
                &&& r.unwrap_err().kind() == ErrorKind::InvalidInput
                &&& final(self)@ == old(self)@
            } else {
                &&& r == Ok::<bool, StoreError>(!old(self)@.blobs.index.contains_key(hash@))
                &&& final(self)@ == (StoreView {
                    blobs: blobs_after_put(old(self)@.blobs, hash@, data@),
                    ..old(self)@
                })
                &&& !old(self)@.blobs.index.contains_key(hash@) ==> spec_get_blob(
                    final(self)@.blobs,
                    hash@,
                ) == BlobRead::Content(data@)
            },
            forall|h: Seq<u8>|
                spec_get_blob(old(self)@.blobs, h) is Content ==> #[trigger] spec_get_blob(
                    final(self)@.blobs,
                    h,
                ) == spec_get_blob(old(self)@.blobs, h),
    {
        let actual = blake3_hash(data);
        if !hash_eq(&actual, &hash) {
            return Err(StoreError::InvalidInput("blob hash mismatch".to_string()));
        }
        let was_new = !self.blob_store.contains(&hash);
        match self.blob_store.put_if_absent(hash, data) {
            Ok(_) => {
                proof {
                    self.lemma_blob_put_keeps_addressing(*old(self), hash@, data@);
                }
                Ok(was_new)
            },
            Err(e) => Err(e),
        }
    }

    /// A store stays content-addressed when a blob is put under the hash of
    /// its content.
    proof fn lemma_blob_put_keeps_addressing(&self, before: Store, hash: Seq<u8>, raw: Seq<u8>)
        requires
            blake3_digest(raw) == hash,
            self@.turns == before@.turns,
            self@.blobs == blobs_after_put(before@.blobs, hash, raw),
            !before@.blobs.index.contains_key(hash) ==> spec_get_blob(self@.blobs, hash)
                == BlobRead::Content(raw),
            forall|h: Seq<u8>|
                spec_get_blob(before@.blobs, h) is Content ==> #[trigger] spec_get_blob(
                    self@.blobs,
                    h,
                ) == spec_get_blob(before@.blobs, h),
        ensures
            content_addressed(before@) ==> content_addressed(self@),
            self@.blobs.index.contains_key(hash),
    {
        if content_addressed(before@) {
            assert forall|h: Seq<u8>| #[trigger] self@.blobs.index.contains_key(h) implies spec_get_blob(
                self@.blobs,
                h,
            ) is Content && blake3_digest(spec_get_blob(self@.blobs, h)->Content_0) == h by {
                if before@.blobs.index.contains_key(h) {
                    assert(spec_get_blob(self@.blobs, h) == spec_get_blob(before@.blobs, h));
                }
            }
            assert forall|t: u64| #[trigger]
                self@.turns.turns.contains_key(t) implies self@.blobs.index.contains_key(
                self@.turns.turns[t].payload_hash@,
            ) by {
                assert(before@.turns.turns.contains_key(t));
            }
        }
    }

    /// Appends a turn to a context at the time `now_ms`.
    ///
    /// The payload is taken as it came over the wire and brought to its raw
    /// bytes; these must have the declared length and the declared hash.
    /// The blob is stored, the turn appended, and, where nothing is cached
    /// for the context or the context was empty, the metadata of the payload
    /// are cached, given back and indexed. A blob that was not held reads
    /// back as the raw bytes.
    ///
    /// Fails with `InvalidInput` where the payload is not accepted, and the
    /// store is then unchanged; and as `TurnStore::append_turn_at` does where
    /// the turn cannot be appended, with the blob stored.
    pub fn append_turn_at(
        &mut self,
        context_id: u64,
        parent_turn_id: u64,
        declared_type_id: String,
        declared_type_version: u32,
        encoding: u32,
        compression: u32,
        uncompressed_len: u32,
        content_hash: [u8; 32],
        payload_bytes: &[u8],
        now_ms: u64,
    ) -> (r: Result<(TurnRecord, Option<ContextMetadata>), StoreError>)
        requires
            old(self).wf(),
        ensures
            final(self).wf(),
            content_addressed(old(self)@) ==> content_addressed(final(self)@),
            chains_ok(old(self)@.turns) ==> chains_ok(final(self)@.turns),
            final(self)@ == store_after_append(
                old(self)@,
                append_args(context_id, parent_turn_id, declared_type_id@, declared_type_version, encoding, compression, uncompressed_len, content_hash, payload_bytes@, now_ms),
            ),
            match r {
                Ok((record, metadata)) => append_result(
                    old(self)@,
                    append_args(context_id, parent_turn_id, declared_type_id@, declared_type_version, encoding, compression, uncompressed_len, content_hash, payload_bytes@, now_ms),
                ) == Ok::<(TurnRecord, Option<ContextMetadataView>), ErrorKind>(
                    (record, opt_metadata(metadata)),
                ),
                Err(e) => append_result(
                    old(self)@,
                    append_args(context_id, parent_turn_id, declared_type_id@, declared_type_version, encoding, compression, uncompressed_len, content_hash, payload_bytes@, now_ms),
                ) == Err::<(TurnRecord, Option<ContextMetadataView>), ErrorKind>(e.kind()),
            },
            r is Ok ==> r.unwrap().0.payload_hash == content_hash && accepted_payload(
                compression,
                payload_bytes@,
                uncompressed_len,
                content_hash@,
            ) is Some,
            r is Ok && !old(self)@.blobs.index.contains_key(content_hash@) ==> spec_get_blob(
                final(self)@.blobs,
                content_hash@,
            ) == BlobRead::Content(
                accepted_payload(
                    compression,
                    payload_bytes@,
                    uncompressed_len,
                    content_hash@,
                ).unwrap(),
            ),
            forall|h: Seq<u8>|
                spec_get_blob(old(self)@.blobs, h) is Content ==> #[trigger] spec_get_blob(
                    final(self)@.blobs,
                    h,
                ) == spec_get_blob(old(self)@.blobs, h),
            once_each(final(self)@),
    {
        let raw_bytes = if compression == 0 {
            slice_to_vec(payload_bytes)
        } else if compression == 1 {
            match zstd_decode(payload_bytes) {
                Ok(raw) => raw,
                Err(msg) => {
                    return Err(StoreError::InvalidInput(msg));
                },
            }
        } else {
            return Err(StoreError::InvalidInput("unsupported compression".to_string()));
        };
        if raw_bytes.len() != uncompressed_len as usize {
            return Err(StoreError::InvalidInput("uncompressed length mismatch".to_string()));
        }
        let hash = blake3_hash(raw_bytes.as_slice());
        if !hash_eq(&hash, &content_hash) {
            return Err(StoreError::InvalidInput("content hash mismatch".to_string()));
        }
        match self.blob_store.put_if_absent(content_hash, raw_bytes.as_slice()) {
            Ok(_) => {},
            Err(e) => {
                return Err(e);
            },
        }
        proof {
            self.lemma_blob_put_keeps_addressing(*old(self), content_hash@, raw_bytes@);
        }
        let ghost mid = self@;
        let was_empty = match self.turn_store.get_head(context_id) {
            Ok(head) => head.head_turn_id == 0,
            Err(_) => false,
        };
        let record = match self.turn_store.append_turn_at(
            context_id,
            parent_turn_id,
            content_hash,
            encoding,
            declared_type_id,
            declared_type_version,
            compression,
            uncompressed_len,
            now_ms,
        ) {
            Ok(record) => record,
            Err(e) => {
                return Err(e);
            },
        };
        proof {
            if content_addressed(mid) {
                assert forall|t: u64| #[trigger]
                    self@.turns.turns.contains_key(t) implies self@.blobs.index.contains_key(
                    self@.turns.turns[t].payload_hash@,
                ) by {
                    if t != record.turn_id {
                        assert(mid.turns.turns.contains_key(t));
                    }
                }
            }
        }
        let metadata = self.maybe_cache_metadata(context_id, raw_bytes.as_slice(), was_empty);
        if metadata.is_some() {
            self.secondary_indexes.add_context(context_id, metadata.as_ref(), now_ms, record.depth);
        }
        Ok((record, metadata))
    }

    /// Appends a turn to a context now: see `append_turn_at`.
    pub fn append_turn(
        &mut self,
        context_id: u64,
        parent_turn_id: u64,
        declared_type_id: String,
        declared_type_version: u32,
        encoding: u32,
        compression: u32,
        uncompressed_len: u32,
        content_hash: [u8; 32],
        payload_bytes: &[u8],
    ) -> (r: Result<(TurnRecord, Option<ContextMetadata>), StoreError>)
        requires
            old(self).wf(),
        ensures
            final(self).wf(),
            content_addressed(old(self)@) ==> content_addressed(final(self)@),
            chains_ok(old(self)@.turns) ==> chains_ok(final(self)@.turns),
            exists|now_ms: u64|
                {
                    &&& final(self)@ == #[trigger] store_after_append(
                        old(self)@,
                        append_args(
                            context_id,
                            parent_turn_id,
                            declared_type_id@,
                            declared_type_version,
                            encoding,
                            compression,
                            uncompressed_len,
                            content_hash,
                            payload_bytes@,
                            now_ms,
                        ),
                    )
                    &&& match r {
                        Ok((record, metadata)) => append_result(
                            old(self)@,
                            append_args(
                                context_id,
                                parent_turn_id,
                                declared_type_id@,
                                declared_type_version,
                                encoding,
                                compression,
                                uncompressed_len,
                                content_hash,
                                payload_bytes@,
                                now_ms,
                            ),
                        ) == Ok::<(TurnRecord, Option<ContextMetadataView>), ErrorKind>(
                            (record, opt_metadata(metadata)),
                        ),
                        Err(e) => append_result(
                            old(self)@,
                            append_args(
                                context_id,
                                parent_turn_id,
                                declared_type_id@,
                                declared_type_version,
                                encoding,
                                compression,
                                uncompressed_len,
                                content_hash,
                                payload_bytes@,
                                now_ms,
                            ),
                        ) == Err::<(TurnRecord, Option<ContextMetadataView>), ErrorKind>(
                            e.kind(),
                        ),
                    }
                },
            r is Ok ==> r.unwrap().0.payload_hash == content_hash && accepted_payload(
                compression,
                payload_bytes@,
                uncompressed_len,
                content_hash@,
            ) is Some,
            r is Ok && !old(self)@.blobs.index.contains_key(content_hash@) ==> spec_get_blob(
                final(self)@.blobs,
                content_hash@,
            ) == BlobRead::Content(
                accepted_payload(
                    compression,
                    payload_bytes@,
                    uncompressed_len,
                    content_hash@,
                ).unwrap(),
            ),
            forall|h: Seq<u8>|
                spec_get_blob(old(self)@.blobs, h) is Content ==> #[trigger] spec_get_blob(
                    final(self)@.blobs,
                    h,
                ) == spec_get_blob(old(self)@.blobs, h),
            once_each(final(self)@),
    {
        let now_ms = now_unix_ms();
        self.append_turn_at(
            context_id,
            parent_turn_id,
            declared_type_id,
            declared_type_version,
            encoding,
            compression,
            uncompressed_len,
            content_hash,
            payload_bytes,
            now_ms,
        )
    }

    /// Gives each turn of a list its metadata and, where it is asked for,
    /// its payload.
    fn attach_meta(&self, turns: Vec<TurnRecord>, include_payload: bool) -> (r: Result<
        Vec<TurnWithMeta>,
        StoreError,
    >)
        requires
            self.wf(),
        ensures
            match r {
                Ok(items) => with_meta_all(self@, turns@, include_payload) == Ok::<
                    Seq<TurnWithMetaView>,
                    ErrorKind,
                >(turns_with_meta_view(items@)),
                Err(e) => with_meta_all(self@, turns@, include_payload) == Err::<
                    Seq<TurnWithMetaView>,
                    ErrorKind,
                >(e.kind()),
            },
    {
        let mut out: Vec<TurnWithMeta> = Vec::with_capacity(turns.len());
        let mut i: usize = 0;
        assert(turns@.take(0) =~= Seq::empty());
        assert(turns_with_meta_view(out@) =~= Seq::empty());
        while i < turns.len()
            invariant
                i <= turns.len(),
                self.wf(),
                with_meta_all(self@, turns@.take(i as int), include_payload) == Ok::<
                    Seq<TurnWithMetaView>,
                    ErrorKind,
                >(turns_with_meta_view(out@)),
            decreases turns.len() - i,
        {
            assert(turns@.take(i + 1).drop_last() =~= turns@.take(i as int));
            let record = turns[i];
            let meta = match self.turn_store.get_turn_meta(record.turn_id) {
                Ok(meta) => meta,
                Err(e) => {
                    proof {
                        lemma_with_meta_all_fails(self@, turns@, include_payload, i + 1);
                    }
                    return Err(e);
                },
            };
            let payload = if include_payload {
                match self.blob_store.get(&record.payload_hash) {
                    Ok(raw) => Some(raw),
                    Err(e) => {
                        proof {
                            lemma_with_meta_all_fails(self@, turns@, include_payload, i + 1);
                        }
                        return Err(e);
                    },
                }
            } else {
                None
            };
            let ghost before = turns_with_meta_view(out@);
            let item = TurnWithMeta { record, meta, payload };
            let ghost iv = item@;
            out.push(item);
            assert(turns_with_meta_view(out@) =~= before.push(iv));
            i += 1;
        }
        assert(turns@.take(i as int) =~= turns@);
        Ok(out)
    }

    /// The last `limit` turns of a context, ancestors first, each with its
    /// metadata and, where it is asked for, its payload.
    ///
    /// Fails with `NotFound` where the context or a turn is absent, and as
    /// `BlobStore::get` does where a payload does not read.
    pub fn get_last(&self, context_id: u64, limit: u32, include_payload: bool) -> (r: Result<
        Vec<TurnWithMeta>,
        StoreError,
    >)
        requires
            self.wf(),
        ensures
            match spec_get_last(self@.turns, context_id, limit) {
                None => r is Err && r.unwrap_err().kind() == ErrorKind::NotFound,
                Some(turns) => match r {
                    Ok(items) => with_meta_all(self@, turns, include_payload) == Ok::<
                        Seq<TurnWithMetaView>,
                        ErrorKind,
                    >(turns_with_meta_view(items@)),
                    Err(e) => with_meta_all(self@, turns, include_payload) == Err::<
                        Seq<TurnWithMetaView>,
                        ErrorKind,
                    >(e.kind()),
                },
            },
    {
        match self.turn_store.get_last(context_id, limit) {
            Ok(turns) => self.attach_meta(turns, include_payload),
            Err(e) => Err(e),
        }
    }

    /// The last `limit` turns before a turn, ancestors first, each with its
    /// metadata and, where it is asked for, its payload.
    ///
    /// Fails with `NotFound` where the context or a turn is absent, and as
    /// `BlobStore::get` does where a payload does not read.
    pub fn get_before(
        &self,
        context_id: u64,
        before_turn_id: u64,
        limit: u32,
        include_payload: bool,
    ) -> (r: Result<Vec<TurnWithMeta>, StoreError>)
        requires
            self.wf(),
        ensures
            match spec_get_before(self@.turns, context_id, before_turn_id, limit) {
                None => r is Err && r.unwrap_err().kind() == ErrorKind::NotFound,
                Some(turns) => match r {
                    Ok(items) => with_meta_all(self@, turns, include_payload) == Ok::<
                        Seq<TurnWithMetaView>,
                        ErrorKind,
                    >(turns_with_meta_view(items@)),
                    Err(e) => with_meta_all(self@, turns, include_payload) == Err::<
                        Seq<TurnWithMetaView>,
                        ErrorKind,
                    >(e.kind()),
                },
            },
    {
        match self.turn_store.get_before(context_id, before_turn_id, limit) {
            Ok(turns) => self.attach_meta(turns, include_payload),
            Err(e) => Err(e),
        }
    }
}

impl Store {
    /// Opens a store over the images of its files: opens the blob store and
    /// the turn store, loads the metadata of every context from its first
    /// turn, and builds the indexes from them.
    ///
    /// Fails with `Corrupt` where the blob index or the turn store does.
    pub fn open(images: StoreImages) -> (r: Result<Store, StoreError>)
        ensures
            r is Ok <==> !index_corrupt_at(images.blobs_idx@, replay_index(images.blobs_idx@).1)
                && !images_corrupt(images.turns_log@, images.turns_meta@, images.heads_tbl@),
            match r {
                Ok(store) => store.wf() && once_each(store@) && opened_store(
                    images.blobs_pack@,
                    images.blobs_idx@,
                    images.turns_log@,
                    images.turns_meta@,
                    images.heads_tbl@,
                    store@,
                ),
                Err(e) => e.kind() == ErrorKind::Corrupt,
            },
    {
        let blob_store = match BlobStore::open(images.blobs_pack, images.blobs_idx) {
            Ok(b) => b,
            Err(e) => {
                return Err(e);
            },
        };
        let turn_store = match TurnStore::open(
            images.turns_log,
            images.turns_meta,
            images.heads_tbl,
        ) {
            Ok(t) => t,
            Err(e) => {
                return Err(e);
            },
        };
        let mut store = Store {
            blob_store,
            turn_store,
            context_metadata_cache: Vec::new(),
            secondary_indexes: SecondaryIndexes::new(),
        };
        assert(cache_view(store.context_metadata_cache@) =~= Seq::empty());
        store.build_indexes();
        Ok(store)
    }

    /// Loads the metadata of every context and indexes them.
    fn build_indexes(&mut self)
        requires
            old(self).wf(),
            old(self)@.cache.len() == 0,
            old(self)@.indexes.len() == 0,
        ensures
            final(self).wf(),
            final(self)@.blobs == old(self)@.blobs,
            final(self)@.turns == old(self)@.turns,
            final(self)@.cache == loaded_cache(final(self)@, final(self)@.turns.contexts),
            final(self)@.indexes == built_indexes(
                final(self)@,
                final(self)@.turns.contexts,
                final(self)@.turns.contexts.len(),
            ),
    {
        let ids = self.turn_store.context_ids().clone();
        let ghost v0 = self@;
        let ghost contexts = v0.turns.contexts;
        let mut heads: Vec<ContextHead> = Vec::new();
        let mut i: usize = 0;
        assert(self@.cache =~= loaded_cache(v0, contexts).take(0));
        proof {
            lemma_heads_keyed(v0.turns.heads_log, 0, Map::empty());
        }
        while i < ids.len()
            invariant
                i <= ids.len(),
                ids@ == contexts,
                contexts == v0.turns.contexts,
                self.wf(),
                self@.blobs == v0.blobs,
                self@.turns == v0.turns,
                self@.indexes == v0.indexes,
                self@.cache == loaded_cache(v0, contexts).take(i as int),
                heads@.len() == i,
                heads_keyed(v0.turns.heads),
                heads_follow(v0, contexts, heads@, i as int),
            decreases ids.len() - i,
        {
            let c = ids[i];
            proof {
                let keys = tags_of(self@.cache);
                crate::text::lemma_last_index_of(keys, c);
                if last_index_of(keys, c) is Some {
                    let k = last_index_of(keys, c).unwrap();
                    assert(keys[k] == contexts[k]);
                    assert(contexts[k] == contexts[i as int]);
                }
                assert(loaded_metadata(self@, c) == loaded_metadata(v0, c));
                assert(contexts.contains(c));
            }
            let _ = self.get_context_metadata(c);
            assert(self@.cache =~= loaded_cache(v0, contexts).take(i + 1));
            if let Ok(head) = self.turn_store.get_head(c) {
                heads.push(head);
            }
            i += 1;
        }
        self.secondary_indexes.build_from_cache(&self.context_metadata_cache, &heads);
        proof {
            assert(loaded_cache(v0, contexts).take(i as int) =~= loaded_cache(v0, contexts));
            lemma_indexes_over_loaded(v0, contexts, heads@, contexts.len());
            assert(loaded_cache(self@, contexts) =~= loaded_cache(v0, contexts)) by {
                assert forall|k: int| 0 <= k < contexts.len() implies loaded_metadata(
                    self@,
                    contexts[k],
                ) == loaded_metadata(v0, contexts[k]) by {}
            }
            lemma_built_indexes_same(self@, v0, contexts, contexts.len());
        }
    }

    /// The images of a well-formed store replay to the store: opening them
    /// again gives the same turns, metadata, heads and blob index, and cuts
    /// nothing off.
    pub proof fn lemma_restart(&self, w: StoreView)
        requires
            self.wf(),
            opened_store(
                self@.blobs.pack,
                self@.blobs.index_log,
                self@.turns.log,
                self@.turns.meta_log,
                self@.turns.heads_log,
                w,
            ),
        ensures
            !index_corrupt_at(self@.blobs.index_log, replay_index(self@.blobs.index_log).1),
            !images_corrupt(self@.turns.log, self@.turns.meta_log, self@.turns.heads_log),
            w.blobs == self@.blobs,
            w.turns.turns == self@.turns.turns,
            w.turns.metas == self@.turns.metas,
            w.turns.heads == self@.turns.heads,
            w.turns.log == self@.turns.log,
            w.turns.meta_log == self@.turns.meta_log,
            w.turns.heads_log == self@.turns.heads_log,
            w.turns.next_turn_id == self@.turns.next_turn_id,
            forall|c: u64, limit: u32| #[trigger]
                spec_get_last(w.turns, c, limit) == spec_get_last(self@.turns, c, limit),
    {
        self.blob_store.lemma_wf();
        crate::turn_store::lemma_reopen_gives_same_store(self@.turns, w.turns);
        let idx = self@.blobs.index_log;
        assert(idx.subrange(0, idx.len() as int) =~= idx);
    }
}

/// The indexes that are built depend on the blobs and the turns of the
/// store only.
proof fn lemma_built_indexes_same(a: StoreView, b: StoreView, contexts: Seq<u64>, n: nat)
    requires
        a.blobs == b.blobs,
        a.turns == b.turns,
    ensures
        built_indexes(a, contexts, n) == built_indexes(b, contexts, n),
    decreases n,
{
    if n > 0 && n <= contexts.len() {
        lemma_built_indexes_same(a, b, contexts, (n - 1) as nat);
    }
}

/// Whether the first `n` heads of a list are those of the first `n`
/// contexts, each filed under the id of its context.
spec fn heads_follow(v: StoreView, contexts: Seq<u64>, heads: Seq<ContextHead>, n: int) -> bool {
    forall|k: int|
        0 <= k < n ==> {
            &&& v.turns.heads.contains_key(#[trigger] contexts[k])
            &&& heads[k] == v.turns.heads[contexts[k]]
            &&& heads[k].context_id == contexts[k]
        }
}

/// Indexing the heads of the contexts over the metadata that were loaded
/// for them gives the indexes of a store that was opened.
proof fn lemma_indexes_over_loaded(
    v: StoreView,
    contexts: Seq<u64>,
    heads: Seq<ContextHead>,
    n: nat,
)
    requires
        n <= contexts.len(),
        heads.len() == contexts.len(),
        heads_follow(v, contexts, heads, contexts.len() as int),
    ensures
        indexes_over(loaded_cache(v, contexts), heads, n) == built_indexes(v, contexts, n),
    decreases n,
{
    if n > 0 {
        lemma_indexes_over_loaded(v, contexts, heads, (n - 1) as nat);
        let cache = loaded_cache(v, contexts);
        let c = contexts[n - 1];
        assert(heads[n - 1].context_id == c);
        let keys = tags_of(cache);
        crate::text::lemma_last_index_of(keys, c);
        assert(keys[n - 1] == c);
        let at = last_index_of(keys, c).unwrap();
        assert(keys[at] == contexts[at]);
        assert(cache[at].1 == loaded_metadata(v, contexts[at]));
        assert(cached_metadata(cache, c) == loaded_metadata(v, c));
    }
}

} // verus!
