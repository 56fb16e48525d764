use cxdb::blob_store::{BlobCodec, BlobStore};
use cxdb::error::StoreError;
use cxdb::turn_store::{encode_head_record, encode_turn_record, read_turn_record, ContextHead, TurnRecord, TurnStore};

fn hash_of(bytes: &[u8]) -> [u8; 32] {
    *blake3::hash(bytes).as_bytes()
}

#[test]
fn blob_round_trips_exactly() {
    let mut store = BlobStore::new();
    let big: Vec<u8> = (0..3_000_000u32).map(|i| (i % 251) as u8).collect();
    let noise: Vec<u8> = (0..64u32).map(|i| (i.wrapping_mul(2654435761) >> 13) as u8).collect();
    let cases: Vec<Vec<u8>> = vec![Vec::new(), b"small".to_vec(), vec![7u8; 4096], noise, big];
    for raw in &cases {
        let hash = hash_of(raw);
        assert!(!store.contains(&hash));
        let entry = store.put_if_absent(hash, raw).expect("put");
        assert_eq!(entry.raw_len as usize, raw.len());
        assert!(entry.stored_len <= entry.raw_len);
        assert_eq!(entry.codec == BlobCodec::Zstd, entry.stored_len < entry.raw_len);
        assert!(store.contains(&hash));
        assert_eq!(&store.get(&hash).expect("get"), raw);
        assert_eq!(store.raw_len(&hash), Some(raw.len() as u32));
        assert_eq!(store.stored_len(&hash), Some(entry.stored_len));
    }
    // Every blob still reads back after the others were put.
    for raw in &cases {
        assert_eq!(&store.get(&hash_of(raw)).unwrap(), raw);
    }
    assert_eq!(store.stats().blobs_total, cases.len());
    assert!(matches!(store.get(&[9u8; 32]), Err(StoreError::NotFound(_))));
    assert_eq!(store.raw_len(&[9u8; 32]), None);
}

#[test]
fn blob_dedup_keeps_one_entry() {
    let mut store = BlobStore::new();
    let raw = b"the same bytes".to_vec();
    let hash = hash_of(&raw);
    let first = store.put_if_absent(hash, &raw).unwrap();
    let pack_len = store.pack_image().len();
    let idx_len = store.index_image().len();
    assert_eq!(idx_len, 52);
    assert_eq!(first.offset, 0);
    assert_eq!(first.codec, BlobCodec::Raw);
    assert_eq!(pack_len, 48 + raw.len() + 4);
    let second = store.put_if_absent(hash, &raw).unwrap();
    assert_eq!(second.offset, first.offset);
    assert_eq!(store.pack_image().len(), pack_len);
    assert_eq!(store.index_image().len(), idx_len);
    assert_eq!(store.stats().blobs_total, 1);
    assert_eq!(store.stats().pack_bytes, pack_len as u64);
    assert_eq!(store.stats().idx_bytes, 52);

    // The layout of the pack entry and of the index record.
    let pack = store.pack_image();
    assert_eq!(&pack[0..4], &0x42534C42u32.to_le_bytes());
    assert_eq!(&pack[4..6], &1u16.to_le_bytes());
    assert_eq!(&pack[6..8], &0u16.to_le_bytes());
    assert_eq!(&pack[8..12], &(raw.len() as u32).to_le_bytes());
    assert_eq!(&pack[12..16], &(raw.len() as u32).to_le_bytes());
    assert_eq!(&pack[16..48], &hash);
    assert_eq!(&pack[48..48 + raw.len()], &raw[..]);
    let crc = crc32fast::hash(&pack[..48 + raw.len()]);
    assert_eq!(&pack[48 + raw.len()..], &crc.to_le_bytes());
    let idx = store.index_image();
    assert_eq!(&idx[0..32], &hash);
    assert_eq!(&idx[32..40], &0u64.to_le_bytes());
    assert_eq!(&idx[48..50], &0u16.to_le_bytes());
}

#[test]
fn blob_store_reopens_and_cuts_a_partial_index() {
    let mut store = BlobStore::new();
    let a = vec![1u8; 2000];
    let b = b"second".to_vec();
    store.put_if_absent(hash_of(&a), &a).unwrap();
    store.put_if_absent(hash_of(&b), &b).unwrap();
    let pack = store.pack_image().clone();
    let idx = store.index_image().clone();

    let reopened = BlobStore::open(pack.clone(), idx.clone()).unwrap();
    assert_eq!(reopened.get(&hash_of(&a)).unwrap(), a);
    assert_eq!(reopened.get(&hash_of(&b)).unwrap(), b);
    assert_eq!(reopened.stats().blobs_total, 2);

    let mut chopped = idx.clone();
    chopped.pop();
    let mut partial = BlobStore::open(pack.clone(), chopped).unwrap();
    assert!(partial.contains(&hash_of(&a)));
    assert!(!partial.contains(&hash_of(&b)));
    assert_eq!(partial.index_image().len(), 52);
    // The orphaned bytes at the tail of the pack do no harm.
    partial.put_if_absent(hash_of(&b), &b).unwrap();
    assert_eq!(partial.get(&hash_of(&b)).unwrap(), b);

    let mut bad_codec = idx.clone();
    bad_codec[48] = 7;
    assert!(matches!(BlobStore::open(pack.clone(), bad_codec), Err(StoreError::Corrupt(_))));
}

#[test]
fn blob_get_reports_what_is_wrong_with_the_pack() {
    let mut store = BlobStore::new();
    let raw = b"check me".to_vec();
    let hash = hash_of(&raw);
    store.put_if_absent(hash, &raw).unwrap();
    let pack = store.pack_image().clone();
    let idx = store.index_image().clone();
    let open_with = |pack: Vec<u8>| BlobStore::open(pack, idx.clone()).unwrap();

    for (at, what) in [(0, "magic"), (4, "version"), (6, "codec"), (8, "raw len"), (16, "hash"), (50, "bytes"), (56, "crc")] {
        let mut broken = pack.clone();
        broken[at] ^= 0x40;
        let err = open_with(broken).get(&hash).unwrap_err();
        assert!(matches!(err, StoreError::Corrupt(_)), "{what}");
    }
    let mut short = pack.clone();
    short.pop();
    assert!(matches!(open_with(short).get(&hash), Err(StoreError::Io(_))));
    assert!(matches!(open_with(Vec::new()).get(&hash), Err(StoreError::Io(_))));
    assert_eq!(open_with(pack).get(&hash).unwrap(), raw);
}

fn record(turn_id: u64, parent: u64, depth: u32) -> TurnRecord {
    TurnRecord {
        turn_id,
        parent_turn_id: parent,
        depth,
        codec: 1,
        type_tag: 0,
        payload_hash: [turn_id as u8; 32],
        flags: 0,
        created_at_unix_ms: 1000 + turn_id,
    }
}

#[test]
fn turn_record_has_the_layout_of_the_log() {
    let rec = TurnRecord {
        turn_id: 0x0102030405060708,
        parent_turn_id: 2,
        depth: 3,
        codec: 4,
        type_tag: 5,
        payload_hash: [0xab; 32],
        flags: 6,
        created_at_unix_ms: 7,
    };
    let bytes = encode_turn_record(&rec);
    assert_eq!(bytes.len(), 80);
    assert_eq!(&bytes[0..8], &[8, 7, 6, 5, 4, 3, 2, 1]);
    assert_eq!(&bytes[8..16], &2u64.to_le_bytes());
    assert_eq!(&bytes[16..20], &3u32.to_le_bytes());
    assert_eq!(&bytes[20..24], &4u32.to_le_bytes());
    assert_eq!(&bytes[24..32], &5u64.to_le_bytes());
    assert_eq!(&bytes[32..64], &[0xab; 32]);
    assert_eq!(&bytes[64..68], &6u32.to_le_bytes());
    assert_eq!(&bytes[68..76], &7u64.to_le_bytes());
    assert_eq!(&bytes[76..80], &crc32fast::hash(&bytes[..76]).to_le_bytes());
    let back = read_turn_record(&bytes, 0).unwrap();
    assert_eq!(back.turn_id, rec.turn_id);
    assert_eq!(back.payload_hash, rec.payload_hash);
    assert_eq!(back.created_at_unix_ms, 7);
    let mut broken = bytes.clone();
    broken[20] ^= 1;
    assert!(matches!(read_turn_record(&broken, 0), Err(StoreError::Corrupt(_))));
    assert!(matches!(read_turn_record(&bytes[..79], 0), Err(StoreError::Io(_))));

    let head = ContextHead { context_id: 1, head_turn_id: 2, head_depth: 3, created_at_unix_ms: 4, flags: 5 };
    let bytes = encode_head_record(&head);
    assert_eq!(bytes.len(), 36);
    assert_eq!(&bytes[0..8], &1u64.to_le_bytes());
    assert_eq!(&bytes[8..16], &2u64.to_le_bytes());
    assert_eq!(&bytes[16..20], &3u32.to_le_bytes());
    assert_eq!(&bytes[20..24], &5u32.to_le_bytes());
    assert_eq!(&bytes[24..32], &4u64.to_le_bytes());
    assert_eq!(&bytes[32..36], &crc32fast::hash(&bytes[..32]).to_le_bytes());
}

fn three_turn_store() -> (TurnStore, u64) {
    let mut store = TurnStore::new();
    let ctx = store.create_context_at(0, 10).unwrap();
    assert_eq!((ctx.context_id, ctx.head_turn_id, ctx.head_depth), (1, 0, 0));
    for i in 0..3u64 {
        let rec = store
            .append_turn_at(ctx.context_id, 0, [i as u8; 32], 1, format!("type.{i}"), 2, 0, 5, 100 + i)
            .unwrap();
        assert_eq!(rec.turn_id, i + 1);
        assert_eq!(rec.parent_turn_id, i);
        assert_eq!(rec.depth, i as u32);
        assert_eq!(rec.type_tag, 0);
        assert_eq!(rec.created_at_unix_ms, 100 + i);
    }
    (store, ctx.context_id)
}

#[test]
fn get_last_walks_back_from_the_head() {
    let (store, ctx) = three_turn_store();
    assert!(store.get_last(ctx, 0).unwrap().is_empty());
    let ids = |turns: Vec<TurnRecord>| turns.iter().map(|t| t.turn_id).collect::<Vec<_>>();
    assert_eq!(ids(store.get_last(ctx, 1).unwrap()), vec![3]);
    assert_eq!(ids(store.get_last(ctx, 2).unwrap()), vec![2, 3]);
    assert_eq!(ids(store.get_last(ctx, 3).unwrap()), vec![1, 2, 3]);
    assert_eq!(ids(store.get_last(ctx, 50).unwrap()), vec![1, 2, 3]);
    assert_eq!(ids(store.get_last(ctx, u32::MAX).unwrap()), vec![1, 2, 3]);
    assert!(matches!(store.get_last(77, 1), Err(StoreError::NotFound(_))));

    assert_eq!(ids(store.get_before(ctx, 3, 10).unwrap()), vec![1, 2]);
    assert_eq!(ids(store.get_before(ctx, 3, 1).unwrap()), vec![2]);
    assert!(store.get_before(ctx, 1, 10).unwrap().is_empty());
    assert_eq!(ids(store.get_before(ctx, 0, 10).unwrap()), vec![1, 2, 3]);
    assert!(matches!(store.get_before(ctx, 99, 1), Err(StoreError::NotFound(_))));

    assert_eq!(store.get_first_turn(ctx).unwrap().turn_id, 1);
    assert_eq!(store.get_turn(2).unwrap().depth, 1);
    assert!(matches!(store.get_turn(9), Err(StoreError::NotFound(_))));
    let meta = store.get_turn_meta(2).unwrap();
    assert_eq!(meta.declared_type_id, "type.1");
    assert_eq!((meta.declared_type_version, meta.encoding, meta.compression, meta.uncompressed_len), (2, 1, 0, 5));
    let head = store.get_head(ctx).unwrap();
    assert_eq!((head.head_turn_id, head.head_depth, head.created_at_unix_ms), (3, 2, 102));
}

#[test]
fn contexts_fork_and_list() {
    let (mut store, ctx) = three_turn_store();
    let fork = store.fork_context(2).unwrap();
    assert_eq!((fork.context_id, fork.head_turn_id, fork.head_depth), (2, 2, 1));
    assert!(matches!(store.fork_context(40), Err(StoreError::NotFound(_))));
    let empty = store.create_context_at(0, 5000).unwrap();
    assert!(matches!(store.get_first_turn(empty.context_id), Err(StoreError::NotFound(_))));
    let on_fork = store.append_turn_at(fork.context_id, 0, [9; 32], 1, "t".to_string(), 1, 0, 0, 3000).unwrap();
    assert_eq!((on_fork.turn_id, on_fork.parent_turn_id, on_fork.depth), (4, 2, 2));
    let explicit = store.append_turn_at(ctx, 1, [9; 32], 1, "t".to_string(), 1, 0, 0, 4000).unwrap();
    assert_eq!((explicit.parent_turn_id, explicit.depth), (1, 1));
    assert_eq!(store.get_head(ctx).unwrap().head_turn_id, 5);
    assert!(matches!(
        store.append_turn_at(ctx, 77, [9; 32], 1, "t".to_string(), 1, 0, 0, 1),
        Err(StoreError::NotFound(_))
    ));
    assert!(matches!(
        store.append_turn_at(88, 0, [9; 32], 1, "t".to_string(), 1, 0, 0, 1),
        Err(StoreError::NotFound(_))
    ));

    let recent = store.list_recent_contexts(10);
    assert_eq!(
        recent.iter().map(|h| (h.context_id, h.created_at_unix_ms)).collect::<Vec<_>>(),
        vec![(3, 5000), (1, 4000), (2, 3000)]
    );
    assert_eq!(store.list_recent_contexts(1).len(), 1);
    assert_eq!(store.list_recent_contexts(1)[0].context_id, 3);
    assert!(store.list_recent_contexts(0).is_empty());
    let stats = store.stats();
    assert_eq!((stats.turns_total, stats.contexts_total, stats.heads_total), (5, 3, 3));
    assert_eq!(stats.turns_log_bytes, 5 * 80);
    assert_eq!(stats.turns_index_bytes, 5 * 16);
    assert_eq!(stats.heads_table_bytes, 8 * 36);
}

#[test]
fn turn_store_replays_its_images() {
    let (mut store, ctx) = three_turn_store();
    store.fork_context(2).unwrap();
    let log = store.log_image().clone();
    let meta = store.meta_image().clone();
    let heads = store.heads_image().clone();
    assert_eq!(&store.index_image()[16..24], &2u64.to_le_bytes());
    assert_eq!(&store.index_image()[24..32], &80u64.to_le_bytes());

    let mut reopened = TurnStore::open(log.clone(), meta.clone(), heads.clone()).unwrap();
    assert_eq!(reopened.get_last(ctx, 10).unwrap().len(), 3);
    assert_eq!(reopened.get_head(2).unwrap().head_turn_id, 2);
    assert_eq!(reopened.get_turn_meta(3).unwrap().declared_type_id, "type.2");
    assert_eq!(reopened.index_image(), store.index_image());
    let next = reopened.append_turn_at(ctx, 0, [0; 32], 1, "t".to_string(), 1, 0, 0, 1).unwrap();
    assert_eq!(next.turn_id, 4);
    assert_eq!(reopened.create_context_at(0, 1).unwrap().context_id, 3);

    // Without its last byte the log replays to the state before the last append.
    let mut chopped = log.clone();
    chopped.pop();
    let partial = TurnStore::open(chopped, meta.clone(), heads.clone()).unwrap();
    assert_eq!(partial.log_image().len(), 160);
    assert_eq!(partial.stats().turns_total, 2);
    assert!(matches!(partial.get_turn(3), Err(StoreError::NotFound(_))));
    assert!(partial.get_turn(2).is_ok());

    // A record with a bad checksum cuts the log there.
    let mut flipped = log.clone();
    flipped[85] ^= 0xff;
    let cut = TurnStore::open(flipped, meta.clone(), heads.clone()).unwrap();
    assert_eq!(cut.log_image().len(), 80);
    assert_eq!(cut.stats().turns_total, 1);

    let mut heads_chopped = heads.clone();
    heads_chopped.pop();
    let fewer = TurnStore::open(log.clone(), meta.clone(), heads_chopped).unwrap();
    assert_eq!(fewer.heads_image().len(), heads.len() - 36);
    assert!(matches!(fewer.get_head(2), Err(StoreError::NotFound(_))));
    assert_eq!(fewer.get_head(ctx).unwrap().head_turn_id, 3);

    let mut meta_chopped = meta.clone();
    meta_chopped.pop();
    let less = TurnStore::open(log.clone(), meta_chopped, heads.clone()).unwrap();
    assert!(less.get_turn_meta(2).is_ok());
    assert!(matches!(less.get_turn_meta(3), Err(StoreError::NotFound(_))));

    let mut meta_bad = meta.clone();
    meta_bad[12] = 0xff;
    assert!(matches!(
        TurnStore::open(log.clone(), meta_bad, heads.clone()),
        Err(StoreError::Corrupt(_))
    ));

    let max_id = encode_turn_record(&record(u64::MAX, 0, 0));
    assert!(matches!(
        TurnStore::open(max_id, Vec::new(), Vec::new()),
        Err(StoreError::Corrupt(_))
    ));

    // A chain that does not descend is reported where the first turn is sought.
    let mut cyclic = encode_turn_record(&record(1, 2, 1));
    cyclic.extend(encode_turn_record(&record(2, 1, 1)));
    let head = encode_head_record(&ContextHead {
        context_id: 1,
        head_turn_id: 1,
        head_depth: 1,
        created_at_unix_ms: 0,
        flags: 0,
    });
    let odd = TurnStore::open(cyclic, Vec::new(), head).unwrap();
    assert!(matches!(odd.get_first_turn(1), Err(StoreError::Corrupt(_))));
}

#[test]
fn a_fork_needs_a_base_turn() {
    let (mut store, _) = three_turn_store();
    let heads_before = store.heads_image().clone();
    assert!(matches!(store.fork_context(0), Err(StoreError::NotFound(_))));
    assert!(matches!(store.fork_context_at(0, 7), Err(StoreError::NotFound(_))));
    assert!(matches!(store.fork_context_at(9, 7), Err(StoreError::NotFound(_))));
    assert_eq!(store.heads_image(), &heads_before);
    let fork = store.fork_context_at(3, 7).unwrap();
    assert_eq!((fork.context_id, fork.head_turn_id, fork.head_depth, fork.created_at_unix_ms), (2, 3, 2, 7));
    let next = store.create_context_at(0, 8).unwrap();
    assert_eq!(next.context_id, 3);
}

#[test]
fn an_append_needs_its_context() {
    let (mut store, ctx) = three_turn_store();
    let log = store.log_image().clone();
    let meta = store.meta_image().clone();
    let heads = store.heads_image().clone();
    for parent in [0u64, 1, 3, 9] {
        let r = store.append_turn_at(ctx + 1, parent, [7; 32], 1, "t".to_string(), 1, 0, 0, 50);
        assert!(matches!(r, Err(StoreError::NotFound(_))), "parent {parent}");
    }
    assert!(matches!(store.get_head(ctx + 1), Err(StoreError::NotFound(_))));
    assert_eq!((store.log_image(), store.meta_image(), store.heads_image()), (&log, &meta, &heads));
    assert_eq!(store.context_ids(), &vec![ctx]);

    // The ids stay dense: the next context gets the next id, and the next
    // turn the next turn id.
    let made = store.create_context_at(0, 60).unwrap();
    assert_eq!((made.context_id, made.head_turn_id), (ctx + 1, 0));
    let rec = store.append_turn_at(made.context_id, 2, [7; 32], 1, "t".to_string(), 1, 0, 0, 61).unwrap();
    assert_eq!((rec.turn_id, rec.parent_turn_id, rec.depth), (4, 2, 2));
    assert_eq!(store.get_head(ctx).unwrap().head_turn_id, 3);
}

#[test]
fn a_head_table_with_the_largest_context_id_does_not_open() {
    let head = ContextHead {
        context_id: u64::MAX,
        head_turn_id: 0,
        head_depth: 0,
        created_at_unix_ms: 1,
        flags: 0,
    };
    let heads = encode_head_record(&head);
    assert!(matches!(TurnStore::open(Vec::new(), Vec::new(), heads), Err(StoreError::Corrupt(_))));
    let below = encode_head_record(&ContextHead { context_id: u64::MAX - 1, ..head });
    let mut store = TurnStore::open(Vec::new(), Vec::new(), below).unwrap();
    assert!(matches!(store.create_context_at(0, 2), Err(StoreError::InvalidInput(_))));
}
