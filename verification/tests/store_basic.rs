use blake3::Hasher;
use cxdb::error::StoreError;
use cxdb::index::{Query, SecondaryIndexes};
use cxdb::metadata::{ContextMetadata, Provenance};
use cxdb::store::{Store, StoreImages};
use cxdb::turn_store::ContextHead;
use rmpv::Value;

fn empty_images() -> StoreImages {
    StoreImages {
        blobs_pack: Vec::new(),
        blobs_idx: Vec::new(),
        turns_log: Vec::new(),
        turns_meta: Vec::new(),
        heads_tbl: Vec::new(),
    }
}

fn images_of(store: &Store) -> StoreImages {
    StoreImages {
        blobs_pack: store.blob_store().pack_image().clone(),
        blobs_idx: store.blob_store().index_image().clone(),
        turns_log: store.turn_store().log_image().clone(),
        turns_meta: store.turn_store().meta_image().clone(),
        heads_tbl: store.turn_store().heads_image().clone(),
    }
}

#[test]
fn append_and_fork() {
    let mut store = Store::open(empty_images()).expect("open store");

    let ctx = store.create_context(0).expect("create context");
    assert_eq!(ctx.head_turn_id, 0);

    let payload = b"hello world".to_vec();
    let mut hasher = Hasher::new();
    hasher.update(&payload);
    let hash = hasher.finalize();

    let (first, _metadata) = store
        .append_turn(
            ctx.context_id,
            0,
            "com.example.Test".to_string(),
            1,
            1,
            0,
            payload.len() as u32,
            *hash.as_bytes(),
            &payload,
        )
        .expect("append first");

    let fork = store.fork_context(first.turn_id).expect("fork context");

    let second_payload = b"hello world".to_vec();
    let mut hasher2 = Hasher::new();
    hasher2.update(&second_payload);
    let hash2 = hasher2.finalize();

    let _second = store
        .append_turn(
            fork.context_id,
            0,
            "com.example.Test".to_string(),
            1,
            1,
            0,
            second_payload.len() as u32,
            *hash2.as_bytes(),
            &second_payload,
        )
        .expect("append second");

    assert!(store.blob_store().contains(hash.as_bytes()));

    let last = store.get_last(fork.context_id, 10, true).expect("get last");
    assert_eq!(last.len(), 2);
    assert_eq!(last[0].record.turn_id, first.turn_id);
}

#[test]
fn data_persists_across_reopen() {
    let payload = b"persist me".to_vec();
    let mut hasher = Hasher::new();
    hasher.update(&payload);
    let hash = hasher.finalize();

    let (context_id, turn_id, images) = {
        let mut store = Store::open(empty_images()).expect("open store");
        let ctx = store.create_context(0).expect("create context");
        let (turn, _meta) = store
            .append_turn(
                ctx.context_id,
                0,
                "com.example.Persist".to_string(),
                1,
                1,
                0,
                payload.len() as u32,
                *hash.as_bytes(),
                &payload,
            )
            .expect("append turn");
        (ctx.context_id, turn.turn_id, images_of(&store))
    }; // store dropped

    // Reopen over the same images: data should still be there.
    let store = Store::open(images).expect("reopen store");
    let contexts = store.list_recent_contexts(100);
    assert!(
        !contexts.is_empty(),
        "expected at least one context after reopen"
    );
    let last = store
        .get_last(context_id, 10, true)
        .expect("get last after reopen");
    assert_eq!(last.len(), 1, "expected one turn after reopen");
    assert_eq!(last[0].record.turn_id, turn_id);
    assert!(
        store.blob_store().contains(hash.as_bytes()),
        "blob should persist after reopen"
    );
}

#[test]
fn indexes_parent_child_context_lineage() {
    let mut store = Store::open(empty_images()).expect("open store");

    let parent = store.create_context(0).expect("create parent");
    let child = store.create_context(0).expect("create child");
    let grandchild = store.create_context(0).expect("create grandchild");

    let child_payload =
        encode_context_metadata_payload(Some(parent.context_id), Some(parent.context_id));
    let child_hash = blake3::hash(&child_payload);
    store
        .append_turn(
            child.context_id,
            0,
            "cxdb.ConversationItem".to_string(),
            1,
            1,
            0,
            child_payload.len() as u32,
            *child_hash.as_bytes(),
            &child_payload,
        )
        .expect("append child first turn");

    let grandchild_payload =
        encode_context_metadata_payload(Some(child.context_id), Some(parent.context_id));
    let grandchild_hash = blake3::hash(&grandchild_payload);
    store
        .append_turn(
            grandchild.context_id,
            0,
            "cxdb.ConversationItem".to_string(),
            1,
            1,
            0,
            grandchild_payload.len() as u32,
            *grandchild_hash.as_bytes(),
            &grandchild_payload,
        )
        .expect("append grandchild first turn");

    let direct_children = store.child_context_ids(parent.context_id);
    assert_eq!(direct_children, vec![child.context_id]);

    let descendants = store.descendant_context_ids(parent.context_id, None);
    assert_eq!(descendants, vec![grandchild.context_id, child.context_id]);
}

fn encode_context_metadata_payload(
    parent_context_id: Option<u64>,
    root_context_id: Option<u64>,
) -> Vec<u8> {
    let mut provenance_entries = Vec::new();
    if let Some(parent) = parent_context_id {
        provenance_entries.push((Value::from(1), Value::from(parent)));
    }
    if let Some(root) = root_context_id {
        provenance_entries.push((Value::from(3), Value::from(root)));
    }

    let context_metadata = Value::Map(vec![
        (Value::from(1), Value::from("test-client")),
        (Value::from(10), Value::Map(provenance_entries)),
    ]);
    let root = Value::Map(vec![(Value::from(30), context_metadata)]);

    let mut payload = Vec::new();
    rmpv::encode::write_value(&mut payload, &root).expect("encode payload");
    payload
}

fn append(store: &mut Store, context_id: u64, parent: u64, payload: &[u8], now: u64) -> u64 {
    let hash = blake3::hash(payload);
    let (record, _) = store
        .append_turn_at(
            context_id,
            parent,
            "com.example.Echo".to_string(),
            1,
            1,
            0,
            payload.len() as u32,
            *hash.as_bytes(),
            payload,
            now,
        )
        .expect("append");
    record.turn_id
}

#[test]
fn append_and_read_back() {
    let mut store = Store::new();
    let ctx = store.create_context(0).unwrap();
    let payload = {
        let mut buf = Vec::new();
        rmpv::encode::write_value(&mut buf, &Value::Map(vec![(Value::from(1), Value::from("hi"))]))
            .unwrap();
        buf
    };
    let hash = blake3::hash(&payload);
    let (record, metadata) = store
        .append_turn_at(
            ctx.context_id,
            0,
            "com.example.Echo".to_string(),
            1,
            1,
            0,
            payload.len() as u32,
            *hash.as_bytes(),
            &payload,
            777,
        )
        .unwrap();
    assert!(metadata.is_none());
    assert_eq!(record.turn_id, 1);
    assert_eq!(record.created_at_unix_ms, 777);
    let last = store.get_last(ctx.context_id, 10, true).unwrap();
    assert_eq!(last.len(), 1);
    assert_eq!(last[0].record.depth, 0);
    assert_eq!(last[0].record.parent_turn_id, 0);
    assert_eq!(last[0].record.payload_hash, *hash.as_bytes());
    assert_eq!(last[0].payload.as_deref(), Some(&payload[..]));
    assert_eq!(last[0].meta.declared_type_id, "com.example.Echo");
    assert_eq!(last[0].meta.declared_type_version, 1);
    assert_eq!(last[0].meta.uncompressed_len, payload.len() as u32);
    let without = store.get_last(ctx.context_id, 10, false).unwrap();
    assert!(without[0].payload.is_none());
    assert_eq!(store.get_head(ctx.context_id).unwrap().head_turn_id, 1);
    assert_eq!(store.get_blob(hash.as_bytes()).unwrap(), payload);

    // A fork keeps the ancestry.
    let fork = store.fork_context(record.turn_id).unwrap();
    assert_eq!(fork.head_turn_id, record.turn_id);
    assert_eq!(fork.head_depth, 0);
    let second = append(&mut store, fork.context_id, 0, b"second", 778);
    let both = store.get_last(fork.context_id, 10, false).unwrap();
    assert_eq!(both.iter().map(|t| t.record.turn_id).collect::<Vec<_>>(), vec![1, second]);
    assert_eq!(both[1].record.depth, 1);
    assert_eq!(store.get_last(ctx.context_id, 10, false).unwrap().len(), 1);
    let before = store.get_before(fork.context_id, second, 10, false).unwrap();
    assert_eq!(before.len(), 1);
    assert_eq!(before[0].record.turn_id, 1);
}

#[test]
fn append_refuses_a_payload_that_is_not_as_declared() {
    let mut store = Store::new();
    let ctx = store.create_context(0).unwrap();
    let payload = b"abcdef".to_vec();
    let hash = *blake3::hash(&payload).as_bytes();
    let before = images_of(&store);

    let wrong_len = store
        .append_turn(ctx.context_id, 0, "t".to_string(), 1, 1, 0, 5, hash, &payload)
        .unwrap_err();
    assert!(matches!(wrong_len, StoreError::InvalidInput(_)));
    let wrong_hash = store
        .append_turn(ctx.context_id, 0, "t".to_string(), 1, 1, 0, 6, [0u8; 32], &payload)
        .unwrap_err();
    assert!(matches!(wrong_hash, StoreError::InvalidInput(_)));
    let wrong_compression = store
        .append_turn(ctx.context_id, 0, "t".to_string(), 1, 1, 9, 6, hash, &payload)
        .unwrap_err();
    assert!(matches!(wrong_compression, StoreError::InvalidInput(_)));
    let bad_frame = store
        .append_turn(ctx.context_id, 0, "t".to_string(), 1, 1, 1, 6, hash, &payload)
        .unwrap_err();
    assert!(matches!(bad_frame, StoreError::InvalidInput(_)));

    let after = images_of(&store);
    assert_eq!(before.blobs_pack, after.blobs_pack);
    assert_eq!(before.blobs_idx, after.blobs_idx);
    assert_eq!(before.turns_log, after.turns_log);
    assert_eq!(before.turns_meta, after.turns_meta);
    assert_eq!(before.heads_tbl, after.heads_tbl);
    assert!(!store.blob_store().contains(&hash));
    assert_eq!(store.stats().turns_total, 0);

    let missing_parent = store
        .append_turn(ctx.context_id, 99, "t".to_string(), 1, 1, 0, 6, hash, &payload)
        .unwrap_err();
    assert!(matches!(missing_parent, StoreError::NotFound(_)));
    let missing_context = store
        .append_turn(404, 0, "t".to_string(), 1, 1, 0, 6, hash, &payload)
        .unwrap_err();
    assert!(matches!(missing_context, StoreError::NotFound(_)));

    let compressed = zstd::encode_all(&payload[..], 3).unwrap();
    let (record, _) = store
        .append_turn(ctx.context_id, 0, "t".to_string(), 1, 1, 1, 6, hash, &compressed)
        .expect("compressed payload");
    assert_eq!(record.depth, 0);
    assert_eq!(store.get_blob(&hash).unwrap(), payload);
}

#[test]
fn first_turn_metadata_are_cached_and_indexed() {
    let mut store = Store::new();
    let parent = store.create_context(0).unwrap();
    let child = store.create_context(0).unwrap();
    let payload = encode_context_metadata_payload(Some(parent.context_id), None);
    let hash = *blake3::hash(&payload).as_bytes();
    let (_, metadata) = store
        .append_turn_at(child.context_id, 0, "t".to_string(), 1, 1, 0, payload.len() as u32, hash, &payload, 5000)
        .unwrap();
    let metadata = metadata.expect("metadata of the first turn");
    assert_eq!(metadata.client_tag.as_deref(), Some("test-client"));
    assert_eq!(metadata.provenance.as_ref().unwrap().parent_context_id, Some(parent.context_id));
    let (_, again) = store
        .append_turn_at(child.context_id, 0, "t".to_string(), 1, 1, 0, payload.len() as u32, hash, &payload, 5001)
        .unwrap();
    assert!(again.is_none());
    let cached = store.get_context_metadata(child.context_id).expect("cached");
    assert_eq!(cached.client_tag.as_deref(), Some("test-client"));
    assert!(store.get_context_metadata(parent.context_id).is_none());

    let live = vec![child.context_id];
    let by_tag = store.search_contexts_parsed(&Query::TagIs("test-client".to_string()), &live, None);
    assert_eq!(by_tag.context_ids, vec![child.context_id]);
    assert_eq!(by_tag.total_count, 1);
    let by_parent =
        store.search_contexts_parsed(&Query::ParentIs(parent.context_id), &live, Some(0));
    assert!(by_parent.context_ids.is_empty());
    assert_eq!(by_parent.total_count, 1);
    let not_live = store.search_contexts_parsed(
        &Query::Both(
            Box::new(Query::CreatedBetween(5000, 5000)),
            Box::new(Query::Not(Box::new(Query::Live))),
        ),
        &live,
        None,
    );
    assert!(not_live.context_ids.is_empty());
    let either = store.search_contexts_parsed(
        &Query::Either(
            Box::new(Query::TitleContains("nothing".to_string())),
            Box::new(Query::Live),
        ),
        &live,
        None,
    );
    assert_eq!(either.context_ids, vec![child.context_id]);

    // Reopening loads the metadata from the first turn again.
    let mut reopened = Store::open(images_of(&store)).unwrap();
    assert_eq!(reopened.child_context_ids(parent.context_id), vec![child.context_id]);
    let loaded = reopened.get_context_metadata(child.context_id).expect("loaded");
    assert_eq!(loaded.client_tag.as_deref(), Some("test-client"));
}

#[test]
fn descendants_are_capped_breadth_first() {
    let mut store = Store::new();
    let root = store.create_context(0).unwrap().context_id;
    let mut made = Vec::new();
    // root -> a, b; a -> c; c -> root (a cycle).
    for parent in [Some(root), Some(root), None, None] {
        let ctx = store.create_context(0).unwrap().context_id;
        made.push((ctx, parent));
    }
    let (a, b, c, d) = (made[0].0, made[1].0, made[2].0, made[3].0);
    for (ctx, parent) in [(a, root), (b, root), (c, a), (root, c)] {
        let payload = encode_context_metadata_payload(Some(parent), None);
        append(&mut store, ctx, 0, &payload, 1);
    }
    append(&mut store, d, 0, b"plain", 1);
    assert_eq!(store.child_context_ids(root), vec![b, a]);
    assert_eq!(store.descendant_context_ids(root, None), vec![c, b, a, root]);
    assert_eq!(store.descendant_context_ids(root, Some(2)), vec![b, a]);
    assert_eq!(store.descendant_context_ids(root, Some(1)), vec![b]);
    assert!(store.descendant_context_ids(root, Some(0)).is_empty());
    assert_eq!(store.descendant_context_ids(root, Some(100)), vec![c, b, a, root]);
    assert!(store.descendant_context_ids(d, None).is_empty());
    assert!(store.child_context_ids(999).is_empty());
}

#[test]
fn put_blob_checks_the_hash() {
    let mut store = Store::new();
    let data = b"blob bytes".to_vec();
    let hash = *blake3::hash(&data).as_bytes();
    assert!(matches!(store.put_blob([1u8; 32], &data), Err(StoreError::InvalidInput(_))));
    assert_eq!(store.put_blob(hash, &data).unwrap(), true);
    assert_eq!(store.put_blob(hash, &data).unwrap(), false);
    assert_eq!(store.stats().blobs_total, 1);
    assert_eq!(store.get_blob(&hash).unwrap(), data);
    assert!(matches!(store.get_blob(&[1u8; 32]), Err(StoreError::NotFound(_))));
}

#[test]
fn indexes_are_built_from_cached_metadata_and_heads() {
    let head = |context_id: u64, created_at_unix_ms: u64| ContextHead {
        context_id,
        head_turn_id: context_id * 10,
        head_depth: 2,
        created_at_unix_ms,
        flags: 0,
    };
    let mut provenance = Provenance::empty();
    provenance.parent_context_id = Some(1);
    provenance.root_context_id = Some(1);
    let child = ContextMetadata {
        client_tag: Some("tag".to_string()),
        title: None,
        labels: Some(vec!["a".to_string()]),
        provenance: Some(provenance),
    };
    let cache = vec![(2u64, Some(child)), (3u64, None)];
    let heads = vec![head(1, 100), head(2, 200), head(3, 300)];

    let mut indexes = SecondaryIndexes::new();
    indexes.add_context(9, None, 1, 0);
    indexes.build_from_cache(&cache, &heads);

    assert_eq!(indexes.len(), 3);
    assert!(indexes.get(9).is_none());
    assert_eq!(indexes.lookup_parent_exact(1), vec![2]);
    assert!(indexes.lookup_parent_exact(2).is_empty());
    let entry = indexes.get(2).expect("entry");
    assert_eq!(entry.client_tag.as_deref(), Some("tag"));
    assert_eq!(entry.labels, vec!["a".to_string()]);
    assert_eq!((entry.created_at, entry.depth), (200, 2));
    let bare = indexes.get(1).expect("entry");
    assert_eq!((bare.client_tag.clone(), bare.parent_context_id, bare.created_at), (None, None, 100));
}

#[test]
fn the_first_turn_is_indexed_whatever_was_cached_for_the_empty_context() {
    let mut store = Store::new();
    let parent = store.create_context(0).unwrap().context_id;
    let asked = store.create_context(0).unwrap().context_id;
    // Asking for the metadata of an empty context caches that it has none.
    assert!(store.get_context_metadata(asked).is_none());
    let payload = encode_context_metadata_payload(Some(parent), Some(parent));
    let hash = *blake3::hash(&payload).as_bytes();
    let (_, metadata) = store
        .append_turn_at(asked, 0, "t".to_string(), 1, 1, 0, payload.len() as u32, hash, &payload, 10)
        .unwrap();
    assert_eq!(metadata.expect("metadata").provenance.unwrap().parent_context_id, Some(parent));
    assert_eq!(store.child_context_ids(parent), vec![asked]);
    assert_eq!(store.get_context_metadata(asked).unwrap().client_tag.as_deref(), Some("test-client"));

    // Opening caches the metadata of every context, of the empty ones too.
    let late = store.create_context(0).unwrap().context_id;
    let mut reopened = Store::open(images_of(&store)).unwrap();
    let (_, metadata) = reopened
        .append_turn_at(late, 0, "t".to_string(), 1, 1, 0, payload.len() as u32, hash, &payload, 11)
        .unwrap();
    assert!(metadata.is_some());
    assert_eq!(reopened.child_context_ids(parent), vec![late, asked]);
    assert_eq!(reopened.descendant_context_ids(parent, Some(1)), vec![late]);

    // A later turn gives no metadata, and changes none.
    let other = encode_context_metadata_payload(Some(late), None);
    let other_hash = *blake3::hash(&other).as_bytes();
    let (_, again) = reopened
        .append_turn_at(asked, 0, "t".to_string(), 1, 1, 0, other.len() as u32, other_hash, &other, 12)
        .unwrap();
    assert!(again.is_none());
    assert!(reopened.child_context_ids(late).is_empty());
}

#[test]
fn a_fork_of_no_turn_and_an_append_to_no_context_are_refused() {
    let mut store = Store::new();
    let ctx = store.create_context(0).unwrap().context_id;
    let first = append(&mut store, ctx, 0, b"one", 1);
    assert!(matches!(store.fork_context(0), Err(StoreError::NotFound(_))));
    assert!(matches!(store.fork_context_at(first + 1, 2), Err(StoreError::NotFound(_))));
    let payload = b"two";
    let hash = *blake3::hash(payload).as_bytes();
    let r = store.append_turn_at(ctx + 1, first, "t".to_string(), 1, 1, 0, 3, hash, payload, 3);
    assert!(matches!(r, Err(StoreError::NotFound(_))));
    assert!(matches!(store.get_head(ctx + 1), Err(StoreError::NotFound(_))));
    let fork = store.fork_context_at(first, 4).unwrap();
    assert_eq!((fork.context_id, fork.head_turn_id), (ctx + 1, first));
}
