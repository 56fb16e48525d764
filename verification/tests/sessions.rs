use cxdb::error::{map_error, StoreError};
use cxdb::events::StoreEvent;
use cxdb::protocol::{
    decode_request, encode_error, encode_get_blob, encode_get_last, encode_response, read_frame,
    write_answer, write_frame, FrameHeader, Request, Response, Session,
};
use cxdb::session::SessionTracker;
use cxdb::sse::{http_status, write_sse_event, write_sse_heartbeat, write_stream_step};
use cxdb::store::Store;
use rmpv::Value;

#[test]
fn session_tracker_follows_sessions_and_contexts() {
    let mut tracker = SessionTracker::new();
    tracker.register_at(1, "alpha".to_string(), Some("10.0.0.1:5000".to_string()), 100);
    tracker.register_at(2, "".to_string(), None, 200);
    tracker.register(3, "alpha".to_string(), None);
    assert_eq!(tracker.get_peer_addr(1).as_deref(), Some("10.0.0.1:5000"));
    assert_eq!(tracker.get_peer_addr(2), None);
    assert_eq!(tracker.get_peer_addr(9), None);
    assert_eq!(tracker.get_client_tag(2).as_deref(), Some(""));
    assert_eq!(tracker.get_client_tag(9), None);
    assert_eq!(tracker.get_active_tags(), vec!["alpha".to_string()]);

    tracker.add_context(1, 10);
    tracker.add_context(1, 11);
    tracker.add_context(1, 10);
    tracker.add_context(2, 20);
    tracker.add_context(9, 30);
    assert!(tracker.is_context_live(10) && tracker.is_context_live(30));
    assert!(!tracker.is_context_live(12));
    assert_eq!(tracker.get_live_context_ids(), vec![10, 11, 20, 30]);
    let owner = tracker.get_session_for_context(11).expect("session");
    assert_eq!(owner.session_id, 1);
    assert_eq!(owner.contexts_created, vec![10, 11]);
    assert_eq!((owner.connected_at, owner.last_activity_at), (100, 100));
    assert!(tracker.get_session_for_context(30).is_none());

    tracker.record_activity_at(1, 150);
    tracker.record_activity_at(9, 150);
    tracker.record_activity(2);
    let sessions = tracker.get_active_sessions();
    assert_eq!(sessions.iter().map(|s| s.session_id).collect::<Vec<_>>(), vec![1, 2, 3]);
    assert_eq!(sessions[0].last_activity_at, 150);
    assert_eq!(sessions[0].connected_at, 100);

    // A context goes to the session that added it last.
    tracker.add_context(2, 10);
    assert_eq!(tracker.get_session_for_context(10).unwrap().session_id, 2);
    assert_eq!(tracker.unregister(1), vec![10, 11]);
    assert!(!tracker.is_context_live(10) && !tracker.is_context_live(11));
    assert!(tracker.is_context_live(20));
    assert!(tracker.unregister(1).is_empty());
    assert_eq!(tracker.get_active_sessions().len(), 2);
}

#[test]
fn frames_round_trip() {
    let frame = write_frame(5, 1, 0x0102030405060708, b"payload").unwrap();
    assert_eq!(frame.len(), 16 + 7);
    assert_eq!(&frame[0..2], &5u16.to_le_bytes());
    assert_eq!(&frame[2..4], &1u16.to_le_bytes());
    assert_eq!(&frame[4..12], &[8, 7, 6, 5, 4, 3, 2, 1]);
    assert_eq!(&frame[12..16], &7u32.to_le_bytes());
    assert_eq!(&frame[16..], b"payload");
    let mut buf = frame.clone();
    buf.extend_from_slice(b"next");
    let (header, end) = read_frame(&buf).expect("frame");
    assert_eq!(header, FrameHeader { msg_type: 5, flags: 1, req_id: 0x0102030405060708, payload_len: 7 });
    assert_eq!(end, 23);
    assert_eq!(&buf[16..end], b"payload");
    assert!(read_frame(&frame[..22]).is_none());
    assert!(read_frame(&frame[..15]).is_none());
    let empty = write_frame(1, 0, 2, b"").unwrap();
    assert_eq!(read_frame(&empty).unwrap().1, 16);
}

#[test]
fn errors_map_to_codes() {
    assert_eq!(map_error(&StoreError::NotFound("context".to_string())), (404, "context".to_string()));
    assert_eq!(map_error(&StoreError::InvalidInput("bad".to_string())), (422, "bad".to_string()));
    assert_eq!(map_error(&StoreError::Corrupt("crc".to_string())), (500, "crc".to_string()));
    assert_eq!(map_error(&StoreError::Io("disk".to_string())), (500, "disk".to_string()));
    assert_eq!(http_status(&StoreError::NotFound("context".to_string())).0, 404);
    assert_eq!(http_status(&StoreError::NotFound("type descriptor".to_string())).0, 424);
    assert_eq!(http_status(&StoreError::NotFound("parent turn".to_string())).0, 409);
    assert_eq!(http_status(&StoreError::NotFound("base turn".to_string())).0, 409);
    assert_eq!(http_status(&StoreError::InvalidInput("parent turn".to_string())).0, 422);
    assert_eq!(http_status(&StoreError::Corrupt("x".to_string())).0, 500);
    assert_eq!(http_status(&StoreError::Io("x".to_string())), (500, "x".to_string()));
}

#[test]
fn event_stream_chunks_have_exact_bytes() {
    let mut out = Vec::new();
    write_sse_event(&mut out, "connected", "{}");
    assert_eq!(out, b"1b\r\nevent: connected\ndata: {}\n\n\r\n");
    let mut out = Vec::new();
    write_sse_heartbeat(&mut out);
    assert_eq!(out, b"c\r\n:heartbeat\n\n\r\n");
    let mut out = b"x".to_vec();
    write_sse_event(&mut out, "e", "0123456789");
    assert_eq!(out, b"x1b\r\nevent: e\ndata: 0123456789\n\n\r\n");

    let mut out = Vec::new();
    assert_eq!(write_stream_step(&mut out, None, 1000, 20999), 1000);
    assert!(out.is_empty());
    assert_eq!(write_stream_step(&mut out, None, 1000, 21000), 21000);
    assert_eq!(out, b"c\r\n:heartbeat\n\n\r\n");
    let mut out = Vec::new();
    let event = StoreEvent::ClientConnected { session_id: "1".to_string(), client_tag: "t".to_string() };
    assert_eq!(write_stream_step(&mut out, Some(event), 1000, 1001), 1001);
    let text = String::from_utf8(out).unwrap();
    assert!(text.ends_with("\r\nevent: client_connected\ndata: {\"client_tag\":\"t\",\"session_id\":\"1\"}\n\n\r\n"));
    assert!(text.starts_with("43\r\n"));
}

fn names(events: &[StoreEvent]) -> Vec<&'static str> {
    events.iter().map(|e| e.name()).collect()
}

fn metadata_payload(parent: u64) -> Vec<u8> {
    let provenance = Value::Map(vec![
        (Value::from(1), Value::from(parent)),
        (Value::from(2), Value::from("sub_agent")),
    ]);
    let metadata = Value::Map(vec![
        (Value::from(1), Value::from("tagged")),
        (Value::from(10), provenance),
    ]);
    let mut buf = Vec::new();
    rmpv::encode::write_value(&mut buf, &Value::Map(vec![(Value::from(30), metadata)])).unwrap();
    buf
}

#[test]
fn session_handles_requests() {
    let mut store = Store::new();
    let mut tracker = SessionTracker::new();
    let mut session = Session::new(7, "127.0.0.1:9".to_string());
    assert_eq!(session.session_id(), 7);

    let h = session.handle_at(Request::Hello { client_tag: "cli".to_string() }, &mut store, &mut tracker, 50);
    assert!(matches!(h.response, Ok(Response::Hello { session_id: 7, protocol_version: 1 })));
    assert_eq!(names(&h.events), vec!["client_connected"]);
    assert_eq!(h.events[0].to_sse().1, "{\"client_tag\":\"cli\",\"session_id\":\"7\"}");
    assert_eq!(tracker.get_client_tag(7).as_deref(), Some("cli"));
    assert_eq!(tracker.get_peer_addr(7).as_deref(), Some("127.0.0.1:9"));
    let again = session.handle_at(Request::Hello { client_tag: "other".to_string() }, &mut store, &mut tracker, 51);
    assert!(again.events.is_empty());
    assert_eq!(tracker.get_client_tag(7).as_deref(), Some("cli"));

    let created = session.handle_at(Request::CtxCreate { base_turn_id: 0 }, &mut store, &mut tracker, 60);
    assert!(matches!(
        created.response,
        Ok(Response::Context { context_id: 1, head_turn_id: 0, head_depth: 0 })
    ));
    assert_eq!(
        created.events[0].to_sse().1,
        "{\"client_tag\":\"cli\",\"context_id\":\"1\",\"created_at\":60,\"session_id\":\"7\"}"
    );
    assert!(tracker.is_context_live(1));
    let second = session.handle_at(Request::CtxCreate { base_turn_id: 0 }, &mut store, &mut tracker, 61);
    assert!(matches!(second.response, Ok(Response::Context { context_id: 2, .. })));

    let payload = metadata_payload(1);
    let hash = *blake3::hash(&payload).as_bytes();
    let appended = session.handle_at(
        Request::AppendTurn {
            context_id: 2,
            parent_turn_id: 0,
            declared_type_id: "T".to_string(),
            declared_type_version: 3,
            encoding: 1,
            compression: 0,
            uncompressed_len: payload.len() as u32,
            content_hash: hash,
            payload_bytes: payload.clone(),
        },
        &mut store,
        &mut tracker,
        70,
    );
    match appended.response {
        Ok(Response::AppendAck { context_id, turn_id, depth, payload_hash }) => {
            assert_eq!((context_id, turn_id, depth), (2, 1, 0));
            assert_eq!(payload_hash, hash);
        }
        other => panic!("unexpected response {:?}", other),
    }
    assert_eq!(
        names(&appended.events),
        vec!["turn_appended", "context_metadata_updated", "context_linked"]
    );
    assert_eq!(
        appended.events[0].to_sse().1,
        "{\"context_id\":\"2\",\"declared_type_id\":\"T\",\"declared_type_version\":3,\"depth\":0,\"parent_turn_id\":\"0\",\"turn_id\":\"1\"}"
    );
    assert_eq!(
        appended.events[1].to_sse().1,
        "{\"client_tag\":\"tagged\",\"context_id\":\"2\",\"has_provenance\":true}"
    );
    assert_eq!(
        appended.events[2].to_sse().1,
        "{\"child_context_id\":\"2\",\"parent_context_id\":\"1\",\"spawn_reason\":\"sub_agent\"}"
    );
    assert_eq!(store.child_context_ids(1), vec![2]);

    let failed = session.handle_at(
        Request::AppendTurn {
            context_id: 2,
            parent_turn_id: 0,
            declared_type_id: "T".to_string(),
            declared_type_version: 3,
            encoding: 1,
            compression: 0,
            uncompressed_len: 1,
            content_hash: hash,
            payload_bytes: payload.clone(),
        },
        &mut store,
        &mut tracker,
        71,
    );
    assert!(failed.events.is_empty());
    let err = failed.response.unwrap_err();
    assert_eq!(map_error(&err).0, 422);

    let head = session.handle_at(Request::GetHead { context_id: 2 }, &mut store, &mut tracker, 72);
    assert!(matches!(head.response, Ok(Response::Context { context_id: 2, head_turn_id: 1, head_depth: 0 })));
    let missing = session.handle_at(Request::GetHead { context_id: 9 }, &mut store, &mut tracker, 72);
    assert_eq!(map_error(&missing.response.unwrap_err()).0, 404);
    let fork = session.handle_at(Request::CtxFork { base_turn_id: 1 }, &mut store, &mut tracker, 73);
    assert!(matches!(fork.response, Ok(Response::Context { context_id: 3, head_turn_id: 1, head_depth: 0 })));
    let bad_fork = session.handle_at(Request::CtxFork { base_turn_id: 5 }, &mut store, &mut tracker, 73);
    assert!(matches!(bad_fork.response, Err(StoreError::NotFound(_))));
    assert!(bad_fork.events.is_empty());
    let no_base = session.handle_at(Request::CtxFork { base_turn_id: 0 }, &mut store, &mut tracker, 73);
    assert!(matches!(no_base.response, Err(StoreError::NotFound(_))));
    assert!(no_base.events.is_empty());

    let blob = b"a blob".to_vec();
    let blob_hash = *blake3::hash(&blob).as_bytes();
    let put = session.handle_at(Request::PutBlob { hash: blob_hash, data: blob.clone() }, &mut store, &mut tracker, 74);
    assert!(matches!(put.response, Ok(Response::PutBlob { was_new: true, .. })));
    let put = session.handle_at(Request::PutBlob { hash: blob_hash, data: blob.clone() }, &mut store, &mut tracker, 74);
    assert!(matches!(put.response, Ok(Response::PutBlob { was_new: false, .. })));
    let put = session.handle_at(Request::PutBlob { hash: [0; 32], data: blob.clone() }, &mut store, &mut tracker, 74);
    assert!(matches!(put.response, Err(StoreError::InvalidInput(_))));
    let got = session.handle(Request::GetBlob { hash: blob_hash }, &mut store, &mut tracker);
    match got.response {
        Ok(Response::GetBlob(raw)) => {
            assert_eq!(raw, blob);
            let mut expected = (blob.len() as u32).to_le_bytes().to_vec();
            expected.extend_from_slice(&blob);
            assert_eq!(encode_get_blob(&raw).unwrap(), expected);
        }
        other => panic!("unexpected response {:?}", other),
    }

    let last = session.handle_at(
        Request::GetLast { context_id: 2, limit: 10, include_payload: true },
        &mut store,
        &mut tracker,
        75,
    );
    let items = match last.response {
        Ok(Response::GetLast(items)) => items,
        other => panic!("unexpected response {:?}", other),
    };
    assert_eq!(items.len(), 1);
    let encoded = encode_get_last(&items).unwrap();
    let mut expected = Vec::new();
    expected.extend_from_slice(&1u32.to_le_bytes());
    expected.extend_from_slice(&1u64.to_le_bytes());
    expected.extend_from_slice(&0u64.to_le_bytes());
    expected.extend_from_slice(&0u32.to_le_bytes());
    expected.extend_from_slice(&1u32.to_le_bytes());
    expected.extend_from_slice(b"T");
    expected.extend_from_slice(&3u32.to_le_bytes());
    expected.extend_from_slice(&1u32.to_le_bytes());
    expected.extend_from_slice(&0u32.to_le_bytes());
    expected.extend_from_slice(&(payload.len() as u32).to_le_bytes());
    expected.extend_from_slice(&hash);
    expected.extend_from_slice(&(payload.len() as u32).to_le_bytes());
    expected.extend_from_slice(&payload);
    assert_eq!(encoded, expected);
    let bare = store.get_last(2, 10, false).unwrap();
    let encoded = encode_get_last(&bare).unwrap();
    assert_eq!(encoded.len(), 4 + 8 + 8 + 4 + 4 + 1 + 16 + 32);

    let closed = session.close(&mut tracker);
    assert_eq!(
        closed.to_sse().1,
        "{\"client_tag\":\"cli\",\"contexts\":[\"1\",\"2\",\"3\"],\"session_id\":\"7\"}"
    );
    assert!(!tracker.is_context_live(1));
    assert!(tracker.get_active_sessions().is_empty());
}

#[test]
fn session_without_hello_registers_without_a_tag() {
    let mut store = Store::new();
    let mut tracker = SessionTracker::new();
    let mut session = Session::new(3, "peer".to_string());
    let created = session.handle_at(Request::CtxCreate { base_turn_id: 0 }, &mut store, &mut tracker, 5);
    assert_eq!(
        created.events[0].to_sse().1,
        "{\"client_tag\":\"\",\"context_id\":\"1\",\"created_at\":5,\"session_id\":\"3\"}"
    );
    assert_eq!(tracker.get_client_tag(3).as_deref(), Some(""));
    let hello = session.handle_at(Request::Hello { client_tag: "late".to_string() }, &mut store, &mut tracker, 6);
    assert!(hello.events.is_empty());
    let closed = session.close(&mut tracker);
    assert_eq!(closed.to_sse().1, "{\"client_tag\":\"\",\"contexts\":[\"1\"],\"session_id\":\"3\"}");
}

#[test]
fn requests_decode_from_their_payloads() {
    let mut hello = Vec::new();
    hello.extend_from_slice(&1u16.to_le_bytes());
    hello.extend_from_slice(&3u16.to_le_bytes());
    hello.extend_from_slice(b"clixyz");
    match decode_request(1, &hello).unwrap() {
        Request::Hello { client_tag } => assert_eq!(client_tag, "cli"),
        other => panic!("unexpected request {:?}", other),
    }
    assert!(matches!(decode_request(1, &hello[..6]), Err(StoreError::InvalidInput(_))));
    assert!(matches!(decode_request(1, &[1, 0, 1, 0, 0xff]), Err(StoreError::InvalidInput(_))));

    assert!(matches!(
        decode_request(2, &7u64.to_le_bytes()),
        Ok(Request::CtxCreate { base_turn_id: 7 })
    ));
    assert!(matches!(
        decode_request(3, &8u64.to_le_bytes()),
        Ok(Request::CtxFork { base_turn_id: 8 })
    ));
    assert!(matches!(decode_request(4, &9u64.to_le_bytes()), Ok(Request::GetHead { context_id: 9 })));
    assert!(decode_request(4, &[0; 7]).is_err());
    assert!(decode_request(77, &[0; 64]).is_err());

    let mut get_last = Vec::new();
    get_last.extend_from_slice(&5u64.to_le_bytes());
    get_last.extend_from_slice(&10u32.to_le_bytes());
    get_last.extend_from_slice(&2u32.to_le_bytes());
    assert!(matches!(
        decode_request(6, &get_last),
        Ok(Request::GetLast { context_id: 5, limit: 10, include_payload: true })
    ));
    get_last[12] = 0;
    assert!(matches!(
        decode_request(6, &get_last),
        Ok(Request::GetLast { include_payload: false, .. })
    ));

    assert!(matches!(decode_request(9, &[4u8; 32]), Ok(Request::GetBlob { hash }) if hash == [4u8; 32]));
    let mut put = vec![5u8; 32];
    put.extend_from_slice(&2u32.to_le_bytes());
    put.extend_from_slice(b"abc");
    match decode_request(11, &put).unwrap() {
        Request::PutBlob { hash, data } => {
            assert_eq!(hash, [5u8; 32]);
            assert_eq!(data, b"ab");
        }
        other => panic!("unexpected request {:?}", other),
    }
    put[32] = 4;
    assert!(decode_request(11, &put).is_err());

    let mut append = Vec::new();
    append.extend_from_slice(&1u64.to_le_bytes());
    append.extend_from_slice(&2u64.to_le_bytes());
    append.extend_from_slice(&2u32.to_le_bytes());
    append.extend_from_slice(b"AB");
    append.extend_from_slice(&3u32.to_le_bytes());
    append.extend_from_slice(&4u32.to_le_bytes());
    append.extend_from_slice(&5u32.to_le_bytes());
    append.extend_from_slice(&6u32.to_le_bytes());
    append.extend_from_slice(&[7u8; 32]);
    append.extend_from_slice(&3u32.to_le_bytes());
    append.extend_from_slice(b"xyz");
    match decode_request(5, &append).unwrap() {
        Request::AppendTurn {
            context_id,
            parent_turn_id,
            declared_type_id,
            declared_type_version,
            encoding,
            compression,
            uncompressed_len,
            content_hash,
            payload_bytes,
        } => {
            assert_eq!((context_id, parent_turn_id), (1, 2));
            assert_eq!(declared_type_id, "AB");
            assert_eq!((declared_type_version, encoding, compression, uncompressed_len), (3, 4, 5, 6));
            assert_eq!(content_hash, [7u8; 32]);
            assert_eq!(payload_bytes, b"xyz");
        }
        other => panic!("unexpected request {:?}", other),
    }
    assert!(decode_request(5, &append[..append.len() - 1]).is_err());

    let hello_answer = encode_response(&Response::Hello { session_id: 9, protocol_version: 1 }).unwrap();
    assert_eq!(hello_answer, [9, 0, 0, 0, 0, 0, 0, 0, 1, 0]);
    let context = encode_response(&Response::Context { context_id: 1, head_turn_id: 2, head_depth: 3 }).unwrap();
    assert_eq!(context.len(), 20);
    assert_eq!(&context[16..], &3u32.to_le_bytes());
    let ack = encode_response(&Response::AppendAck { context_id: 1, turn_id: 2, depth: 3, payload_hash: [8; 32] }).unwrap();
    assert_eq!(ack.len(), 52);
    assert_eq!(&ack[20..], &[8u8; 32]);
    let put_answer = encode_response(&Response::PutBlob { hash: [1; 32], was_new: true }).unwrap();
    assert_eq!(put_answer.len(), 33);
    assert_eq!(put_answer[32], 1);

    let error = encode_error(&StoreError::NotFound("context".to_string()));
    let mut expected = 404u32.to_le_bytes().to_vec();
    expected.extend_from_slice(&7u32.to_le_bytes());
    expected.extend_from_slice(b"context");
    assert_eq!(error, expected);

    let frame = write_answer(4, 77, &Ok(Response::Context { context_id: 1, head_turn_id: 2, head_depth: 3 }));
    let (header, end) = read_frame(&frame).unwrap();
    assert_eq!(header, FrameHeader { msg_type: 4, flags: 0, req_id: 77, payload_len: 20 });
    assert_eq!(&frame[16..end], &context[..]);
    let frame = write_answer(4, 78, &Err(StoreError::NotFound("context".to_string())));
    let (header, end) = read_frame(&frame).unwrap();
    assert_eq!((header.msg_type, header.req_id), (255, 78));
    assert_eq!(&frame[16..end], &expected[..]);
}
