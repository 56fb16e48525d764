use cxdb::client::events::{
    decode_client_connected, decode_client_disconnected, decode_context_created,
    decode_context_metadata_updated, decode_turn_appended,
};
use cxdb::client::follow::{
    decode_turn_appended_event, with_follow_buffer, with_max_seen_per_context, FollowError,
    FollowOption, FollowOptions, FollowState, SyncPlan, TurnClient,
};
use cxdb::client::local::LocalClient;
use cxdb::client::options::{IsServerError, WithFollowBuffer, WithMaxSeenPerContext};
use cxdb::store::Store;
use cxdb::client::subscribe::{
    check_url, next_retry_delay, read_event_stream, EventStreamDecoder, ReconnectPolicy,
    SubscribeError, SubscribeErrorKind, SubscribeOptions, with_max_event_bytes,
};
use cxdb::client::turn::{ClientError, ContextHead, GetLastOptions, TurnRecord};
use std::collections::HashMap;
use std::sync::Mutex;

#[test]
fn decode_context_created_fields() {
    let input = br#"{"context_id":"42","session_id":"sess-abc","client_tag":"ai-staff","created_at":1739481600000}"#;
    let ev = decode_context_created(input).expect("decode context_created");
    assert_eq!(ev.context_id, 42);
    assert_eq!(ev.session_id, "sess-abc");
    assert_eq!(ev.client_tag, "ai-staff");
    assert_eq!(ev.created_at, 1739481600000);
}

#[test]
fn decode_turn_appended_optional_fields() {
    let input = br#"{"context_id":7,"turn_id":"9","parent_turn_id":"8","depth":10}"#;
    let ev = decode_turn_appended(input).expect("decode turn_appended");
    assert_eq!(ev.context_id, 7);
    assert_eq!(ev.turn_id, 9);
    assert_eq!(ev.parent_turn_id, 8);
    assert_eq!(ev.depth, 10);
    assert!(!ev.has_declared_type_id);
    assert!(!ev.has_declared_type_ver);
}

#[test]
fn decode_events_take_numbers_as_texts_and_defaults() {
    let ev = decode_turn_appended(
        br#"{"context_id":" 5 ","turn_id":null,"depth":"","declared_type_id":"T","declared_type_version":"3","extra":[1]}"#,
    )
    .unwrap();
    assert_eq!((ev.context_id, ev.turn_id, ev.parent_turn_id, ev.depth), (5, 0, 0, 0));
    assert_eq!(ev.declared_type_id, "T");
    assert_eq!(ev.declared_type_version, 3);
    assert!(ev.has_declared_type_id && ev.has_declared_type_ver);
    let ev = decode_turn_appended(br#"{"declared_type_id":"","declared_type_version":null}"#).unwrap();
    assert!(!ev.has_declared_type_id && !ev.has_declared_type_ver);

    assert!(decode_turn_appended(br#"{"context_id":-1}"#).is_err());
    assert!(decode_turn_appended(br#"{"context_id":1.5}"#).is_err());
    assert!(decode_turn_appended(br#"{"context_id":"x"}"#).is_err());
    assert!(decode_turn_appended(br#"{"depth":4294967296}"#).is_err());
    assert!(decode_turn_appended(br#"{"depth":"4294967295"}"#).is_ok());
    assert!(decode_turn_appended(br#"{"context_id":true}"#).is_err());
    assert!(decode_turn_appended(br#"[1]"#).is_err());
    assert!(decode_turn_appended(b"").is_err());

    let created = decode_context_created(br#"{"created_at":"-12"}"#).unwrap();
    assert_eq!(created.created_at, -12);
    assert_eq!(created.session_id, "");
    assert!(decode_context_created(br#"{"created_at":9223372036854775808}"#).is_err());
    assert!(decode_context_created(br#"{"session_id":null}"#).is_err());

    let updated = decode_context_metadata_updated(
        br#"{"context_id":"3","has_provenance":true,"title":"t","labels":["a","b"]}"#,
    )
    .unwrap();
    assert_eq!(updated.context_id, 3);
    assert!(updated.has_provenance);
    assert_eq!(updated.client_tag, "");
    assert_eq!(updated.title, "t");
    assert_eq!(updated.labels, vec!["a".to_string(), "b".to_string()]);
    assert!(decode_context_metadata_updated(br#"{"labels":["a",1]}"#).is_err());
    assert!(decode_context_metadata_updated(br#"{"has_provenance":"yes"}"#).is_err());

    let connected = decode_client_connected(br#"{"session_id":"s","client_tag":"c"}"#).unwrap();
    assert_eq!((connected.session_id.as_str(), connected.client_tag.as_str()), ("s", "c"));
    let gone = decode_client_disconnected(br#"{"session_id":"s","contexts":["1","2"]}"#).unwrap();
    assert_eq!(gone.contexts, vec!["1".to_string(), "2".to_string()]);
    assert_eq!(gone.client_tag, "");
}

#[test]
fn read_event_stream_multi_line() {
    let input = "event: turn_appended\n\
data: {\"a\":1}\n\
data: {\"b\":2}\n\n";
    let (events, err) = read_event_stream(input.as_bytes(), 1024);
    assert!(err.is_eof());
    assert_eq!(events.len(), 1);
    assert_eq!(events[0].event_type, "turn_appended");
    assert_eq!(
        String::from_utf8_lossy(&events[0].data),
        "{\"a\":1}\n{\"b\":2}"
    );
}

#[test]
fn read_event_stream_default_type_and_comments() {
    let input = ": heartbeat\n\
data: {\"ok\":true}\n\n";
    let (events, err) = read_event_stream(input.as_bytes(), 1024);
    assert!(err.is_eof());
    assert_eq!(events.len(), 1);
    assert_eq!(events[0].event_type, "message");
    assert_eq!(String::from_utf8_lossy(&events[0].data), "{\"ok\":true}");
}

#[test]
fn read_event_stream_oversize() {
    let input = format!("event: big\ndata: {}\n\n", "x".repeat(20));
    let (_events, err) = read_event_stream(input.as_bytes(), 10);
    assert!(!err.is_eof());
}

#[test]
fn read_event_stream_malformed_field() {
    let input = "bad field\n\n";
    let (_events, err) = read_event_stream(input.as_bytes(), 1024);
    assert!(err.message().contains("malformed field"));
}

#[test]
fn subscribe_events_invalid_url() {
    let err = check_url("").expect("error");
    assert!(err.message().contains("url is required"));
    assert!(check_url("  \t\n").is_some());
    assert!(check_url("http://localhost/events").is_none());
}

#[test]
fn read_event_stream_flushes_trailing_data_line() {
    let (events, err) = read_event_stream(b"id: 7\ndata: tail", 0);
    assert!(err.is_eof());
    assert_eq!(events.len(), 1);
    assert_eq!(events[0].event_type, "message");
    assert_eq!(events[0].data, b"tail");
    assert_eq!(events[0].id, "7");

    // Without data nothing is emitted, whatever else was gathered.
    let (events, err) = read_event_stream(b"event: x\nid: 1\n\nevent: y", 0);
    assert!(err.is_eof());
    assert!(events.is_empty());

    let (events, err) = read_event_stream(b"", 0);
    assert!(err.is_eof());
    assert!(events.is_empty());
}

#[test]
fn read_event_stream_reads_fields_exactly() {
    let input = b"event:a\r\ndata:  two spaces\r\ndata\ndata:\nretry: 5\nfoo: bar\nid:  x \n\n\
data: second\n\n: comment\ndata: third\n\nda ta: x\n\ndata: lost\n\n";
    let (events, err) = read_event_stream(input, 0);
    assert!(!err.is_eof() && !err.is_cancelled() && !err.is_timeout());
    assert!(err.message().contains("malformed field"));
    assert_eq!(events.len(), 3);
    assert_eq!(events[0].event_type, "a");
    assert_eq!(events[0].data, b" two spaces\n\n");
    assert_eq!(events[0].id, " x ");
    assert_eq!(events[1].event_type, "message");
    assert_eq!(events[1].data, b"second");
    assert_eq!(events[1].id, "");
    assert_eq!(events[2].data, b"third");

    let (events, err) = read_event_stream(b"data: ok\n\ndata: \xff\n\n", 0);
    assert_eq!(events.len(), 1);
    assert!(!err.is_eof());

    // The size is that of the data without the newlines between the lines.
    let (events, err) = read_event_stream(b"data: 12345\ndata: 67890\n\n", 10);
    assert!(err.is_eof());
    assert_eq!(events[0].data, b"12345\n67890");
    let (events, err) = read_event_stream(b"data: 12345\ndata: 678901\n\n", 10);
    assert!(events.is_empty());
    assert_eq!(err.message(), "cxdb subscribe: event exceeds max size (11 bytes)");
}

#[test]
fn decoder_takes_lines_one_by_one() {
    let mut decoder = EventStreamDecoder::new(0);
    let r = decoder.feed_line(b"data: a\n");
    assert!(r.event.is_none() && r.error.is_none());
    let r = decoder.feed_line(b"\n");
    assert_eq!(r.event.unwrap().data, b"a");
    assert!(r.error.is_none());
    let r = decoder.feed_line(b"data: b\n");
    assert!(r.event.is_none());
    decoder.reset_state();
    let r = decoder.feed_line(b"\n");
    assert!(r.event.is_none() && r.error.is_none());
    let r = decoder.feed_line(b":x");
    assert!(r.event.is_none());
    assert!(r.error.unwrap().is_eof());
}

#[test]
fn retry_delays_double_up_to_the_maximum() {
    assert_eq!(next_retry_delay(0, 10000), 500);
    assert_eq!(next_retry_delay(500, 10000), 1000);
    assert_eq!(next_retry_delay(8000, 10000), 10000);
    assert_eq!(next_retry_delay(8000, 0), 16000);
    assert_eq!(next_retry_delay(u64::MAX, 0), u64::MAX);
    assert_eq!(next_retry_delay(u64::MAX / 2 + 1, 7), 7);

    let mut policy = ReconnectPolicy::new(500, 2000);
    let plan = policy.after_attempt(Some(SubscribeErrorKind::Other), false);
    assert_eq!((plan.report, plan.sleep_ms), (true, Some(500)));
    let plan = policy.after_attempt(Some(SubscribeErrorKind::Eof), false);
    assert_eq!((plan.report, plan.sleep_ms), (true, Some(1000)));
    let plan = policy.after_attempt(None, false);
    assert_eq!((plan.report, plan.sleep_ms), (false, Some(2000)));
    let plan = policy.after_attempt(Some(SubscribeErrorKind::Eof), false);
    assert_eq!(plan.sleep_ms, Some(2000));
    // An attempt that connected starts the delay over.
    let plan = policy.after_attempt(Some(SubscribeErrorKind::Eof), true);
    assert_eq!(plan.sleep_ms, Some(500));
    assert_eq!(policy.delay_ms, 1000);
    let plan = policy.after_attempt(Some(SubscribeErrorKind::Timeout), false);
    assert_eq!((plan.report, plan.sleep_ms), (true, None));
    let plan = policy.after_attempt(Some(SubscribeErrorKind::Cancelled), false);
    assert_eq!((plan.report, plan.sleep_ms), (false, None));
    assert_eq!(policy.delay_ms, 1000);
    let mut zero = ReconnectPolicy::new(0, 100);
    assert_eq!(zero.after_attempt(None, false).sleep_ms, Some(100));
}

#[test]
fn subscribe_errors_and_options() {
    assert!(SubscribeError::cancelled().is_cancelled());
    assert!(SubscribeError::timeout().is_timeout());
    assert!(SubscribeError::eof().is_eof());
    let other = SubscribeError::other("boom".to_string());
    assert!(!other.is_eof() && !other.is_cancelled() && !other.is_timeout());
    assert_eq!(other.message(), "boom");
    assert_eq!(SubscribeError::eof().message(), "cxdb subscribe: stream closed");
    assert_eq!(SubscribeError::cancelled().message(), "context canceled");
    assert_eq!(SubscribeError::timeout().message(), "context deadline exceeded");

    let mut opts = SubscribeOptions::new();
    assert_eq!(opts.max_event_bytes, 2 * 1024 * 1024);
    assert_eq!((opts.event_buffer, opts.error_buffer), (128, 8));
    assert_eq!((opts.retry_delay_ms, opts.max_retry_delay_ms), (500, 10000));
    with_max_event_bytes(9).apply(&mut opts);
    assert_eq!(opts.max_event_bytes, 9);
    assert_eq!(opts.event_buffer, 128);

    let mut follow = FollowOptions::new();
    assert_eq!((follow.buffer_size, follow.max_seen_per_context), (128, 2048));
    with_follow_buffer(10).apply(&mut follow);
    WithMaxSeenPerContext(3).apply(&mut follow);
    assert_eq!((follow.buffer_size, follow.max_seen_per_context), (10, 3));
    assert_eq!(WithFollowBuffer(4), FollowOption::Buffer(4));
    assert_eq!(with_max_seen_per_context(5), FollowOption::MaxSeen(5));

    let server = ClientError::Server { code: 404, detail: "context".to_string() };
    assert!(IsServerError(&server, 404));
    assert!(!IsServerError(&server, 500));
    assert!(!IsServerError(&ClientError::Other("x".to_string()), 404));
}

#[derive(Default)]
struct StubTurnClient {
    turns: Mutex<HashMap<u64, Vec<TurnRecord>>>,
    heads: Mutex<HashMap<u64, ContextHead>>,
}

impl StubTurnClient {
    fn set_context(&self, context_id: u64, turns: Vec<TurnRecord>) {
        let mut turns_lock = self.turns.lock().unwrap();
        turns_lock.insert(context_id, turns.clone());

        let mut heads_lock = self.heads.lock().unwrap();
        if turns.is_empty() {
            heads_lock.insert(
                context_id,
                ContextHead {
                    context_id,
                    head_turn_id: 0,
                    head_depth: 0,
                },
            );
        } else {
            let head = turns.last().unwrap();
            heads_lock.insert(
                context_id,
                ContextHead {
                    context_id,
                    head_turn_id: head.turn_id,
                    head_depth: head.depth,
                },
            );
        }
    }
}

impl TurnClient for StubTurnClient {
    fn get_head(&self, context_id: u64) -> Result<ContextHead, ClientError> {
        let heads = self.heads.lock().unwrap();
        heads
            .get(&context_id)
            .cloned()
            .ok_or(ClientError::Server { code: 404, detail: "context not found".to_string() })
    }

    fn get_last(&self, context_id: u64, opts: GetLastOptions) -> Result<Vec<TurnRecord>, ClientError> {
        let turns = self.turns.lock().unwrap();
        let list = turns
            .get(&context_id)
            .ok_or(ClientError::Server { code: 404, detail: "context not found".to_string() })?;
        let limit = if opts.limit == 0 || opts.limit as usize > list.len() {
            list.len()
        } else {
            opts.limit as usize
        };
        let start = list.len().saturating_sub(limit);
        Ok(list[start..].to_vec())
    }
}

fn turn(turn_id: u64, parent_id: u64, depth: u32) -> TurnRecord {
    TurnRecord {
        turn_id,
        parent_id,
        depth,
        type_id: String::new(),
        type_version: 0,
        encoding: 0,
        compression: 0,
        payload_hash: [0; 32],
        payload: Vec::new(),
    }
}

fn make_turn_event(context_id: u64, turn_id: u64, depth: u32) -> Vec<u8> {
    format!(
        "{{\"context_id\":{},\"turn_id\":{},\"parent_turn_id\":0,\"depth\":{}}}",
        context_id, turn_id, depth
    )
    .into_bytes()
}

/// Follows the events as the worker does: one state for each context.
fn follow(
    client: &StubTurnClient,
    states: &mut HashMap<u64, FollowState>,
    event: &[u8],
    got: &mut Vec<u64>,
    errors: &mut Vec<String>,
) {
    let decoded = match decode_turn_appended_event(event) {
        Ok(e) => e,
        Err(e) => {
            errors.push(e.message());
            return;
        }
    };
    let state = states.entry(decoded.context_id).or_insert_with(|| FollowState::new(2048));
    match state.sync_context(client, decoded.context_id) {
        Ok(turns) => {
            for t in turns {
                assert_eq!(t.context_id, decoded.context_id);
                got.push(t.turn.turn_id);
            }
        }
        Err(e) => errors.push(e.message()),
    }
}

#[test]
fn follow_turns_backfill_and_dedupe() {
    let client = StubTurnClient::default();
    let context_id = 1;
    client.set_context(context_id, vec![turn(1, 0, 0), turn(2, 1, 1)]);

    let mut states = HashMap::new();
    let mut got = Vec::new();
    let mut errs = Vec::new();
    follow(&client, &mut states, &make_turn_event(context_id, 2, 1), &mut got, &mut errs);

    client.set_context(context_id, vec![turn(1, 0, 0), turn(2, 1, 1), turn(3, 2, 2)]);
    follow(&client, &mut states, &make_turn_event(context_id, 3, 2), &mut got, &mut errs);
    follow(&client, &mut states, &make_turn_event(context_id, 3, 2), &mut got, &mut errs);

    if let Some(err) = errs.first() {
        panic!("unexpected error: {}", err);
    }

    assert_eq!(got, vec![1, 2, 3]);
}

#[test]
fn follow_turns_out_of_order() {
    let client = StubTurnClient::default();
    let context_id = 2;
    client.set_context(context_id, vec![turn(10, 0, 0), turn(11, 10, 1)]);

    let mut states = HashMap::new();
    let mut got = Vec::new();
    let mut errs = Vec::new();
    follow(&client, &mut states, &make_turn_event(context_id, 11, 1), &mut got, &mut errs);
    follow(&client, &mut states, &make_turn_event(context_id, 10, 0), &mut got, &mut errs);

    if let Some(err) = errs.first() {
        panic!("unexpected error: {}", err);
    }

    assert_eq!(got, vec![10, 11]);
}

#[test]
fn follow_turns_multiple_contexts() {
    let client = StubTurnClient::default();
    client.set_context(1, vec![turn(1, 0, 0), turn(2, 1, 1)]);
    client.set_context(2, vec![turn(10, 0, 0)]);

    let mut states = HashMap::new();
    let mut got = Vec::new();
    let mut errs = Vec::new();
    follow(&client, &mut states, &make_turn_event(2, 10, 0), &mut got, &mut errs);
    follow(&client, &mut states, &make_turn_event(1, 2, 1), &mut got, &mut errs);

    if let Some(err) = errs.first() {
        panic!("unexpected error: {}", err);
    }

    assert_eq!(got.len(), 3);
}

#[test]
fn follow_state_plans_and_forgets() {
    let mut state = FollowState::new(2);
    assert_eq!(state.plan_sync(0), SyncPlan::Fetch(1));
    assert_eq!(state.plan_sync(4), SyncPlan::Fetch(5));
    assert_eq!(state.plan_sync(u32::MAX), SyncPlan::Fetch(u32::MAX));
    let out = state.accept_turns(9, vec![turn(1, 0, 0), turn(2, 1, 1), turn(2, 1, 1), turn(3, 2, 2)]);
    assert_eq!(out.iter().map(|t| t.turn.turn_id).collect::<Vec<_>>(), vec![1, 2, 3]);
    // Two turns are remembered: the oldest was forgotten.
    assert!(!state.seen_turn(1));
    assert!(state.seen_turn(2) && state.seen_turn(3));
    assert_eq!(state.plan_sync(2), SyncPlan::UpToDate);
    assert_eq!(state.plan_sync(5), SyncPlan::Fetch(3));
    assert_eq!(state.plan_sync(1), SyncPlan::Regressed);
    // A turn that was forgotten is delivered again.
    let again = state.accept_turns(9, vec![turn(1, 0, 0), turn(3, 2, 2)]);
    assert_eq!(again.len(), 1);
    assert_eq!(again[0].turn.turn_id, 1);
    // It is less deep than the last seen: that stays.
    assert_eq!(state.plan_sync(2), SyncPlan::UpToDate);

    let client = StubTurnClient::default();
    client.set_context(5, vec![turn(1, 0, 0)]);
    let err = state.sync_context(&client, 5).unwrap_err();
    assert!(matches!(err, FollowError::Other(_)));
    assert_eq!(err.message(), "follow turns: head depth regressed (context 5)");
    let err = state.sync_context(&client, 6).unwrap_err();
    assert!(matches!(err, FollowError::Client(_)));
    assert!(state.seen_turn(1) && state.seen_turn(3));

    assert!(matches!(decode_turn_appended_event(b""), Err(FollowError::Decode(_))));
    assert!(matches!(decode_turn_appended_event(b"{"), Err(FollowError::Decode(_))));
    assert!(matches!(
        decode_turn_appended_event(br#"{"turn_id":1}"#),
        Err(FollowError::Decode(_))
    ));
    assert!(matches!(
        decode_turn_appended_event(br#"{"context_id":1}"#),
        Err(FollowError::Decode(_))
    ));
    assert_eq!(
        decode_turn_appended_event(br#"{"context_id":1,"turn_id":2}"#).unwrap().turn_id,
        2
    );
}

fn append_payload(store: &mut Store, context_id: u64, payload: &[u8]) -> u64 {
    let hash = *blake3::hash(payload).as_bytes();
    let (record, _) = store
        .append_turn(context_id, 0, "t.Note".to_string(), 3, 1, 0, payload.len() as u32, hash, payload)
        .expect("append");
    record.turn_id
}

#[test]
fn a_store_in_the_same_process_answers_a_follower() {
    let mut store = Store::new();
    let context_id = store.create_context(0).expect("context").context_id;
    let first = append_payload(&mut store, context_id, b"one");
    let second = append_payload(&mut store, context_id, b"two");

    let mut state = FollowState::new(2048);
    {
        let client = LocalClient::new(&store);
        let head = client.head_of(context_id).expect("head");
        assert_eq!((head.context_id, head.head_turn_id, head.head_depth), (context_id, second, 1));

        let with_payload = client
            .last_turns(context_id, GetLastOptions { limit: 1, include_payload: true })
            .expect("last");
        assert_eq!(with_payload.len(), 1);
        let turn = &with_payload[0];
        assert_eq!((turn.turn_id, turn.parent_id, turn.depth), (second, first, 1));
        assert_eq!((turn.type_id.as_str(), turn.type_version, turn.encoding, turn.compression), ("t.Note", 3, 1, 0));
        assert_eq!(turn.payload, b"two".to_vec());
        assert_eq!(turn.payload_hash, *blake3::hash(b"two").as_bytes());

        let without = client
            .last_turns(context_id, GetLastOptions { limit: 5, include_payload: false })
            .expect("last");
        assert_eq!(without.iter().map(|t| t.turn_id).collect::<Vec<_>>(), vec![first, second]);
        assert!(without.iter().all(|t| t.payload.is_empty()));

        let missing = client.head_of(context_id + 1).unwrap_err();
        assert!(IsServerError(&missing, 404));
        let missing = client
            .last_turns(context_id + 1, GetLastOptions { limit: 1, include_payload: true })
            .unwrap_err();
        assert!(IsServerError(&missing, 404));

        let delivered = state.sync_context(&client, context_id).expect("sync");
        assert_eq!(delivered.iter().map(|t| t.turn.turn_id).collect::<Vec<_>>(), vec![first, second]);
        assert!(state.sync_context(&client, context_id).expect("sync").is_empty());
    }

    let third = append_payload(&mut store, context_id, b"three");
    let client = LocalClient::new(&store);
    let delivered = state.sync_context(&client, context_id).expect("sync");
    assert_eq!(delivered.len(), 1);
    assert_eq!(delivered[0].turn.turn_id, third);
    assert_eq!(delivered[0].turn.payload, b"three".to_vec());
    assert!(state.sync_context(&client, context_id).expect("sync").is_empty());
}
