//! The binary protocol: length-framed messages, and what a session does
//! with the requests of its client.

use crate::error::{map_error, spec_error_code, ErrorKind, StoreError};
use crate::events::{event_members, event_name, json_strings, StoreEvent};
use crate::json::{JsonNumber, JsonView};
use crate::metadata::{opt_metadata, ContextMetadata, ContextMetadataView};
use crate::registry_types::tagged;
use crate::blob_store::{spec_get_blob, BlobRead};
use crate::session::{
    view_after_activity, view_after_add_context, view_after_register, view_after_unregister,
    SessionTracker, SessionTrackerView,
};
use crate::store::{
    append_args, append_result, blobs_after_put, store_after_append, turns_with_meta_view,
    with_meta_all, AppendArgs, Store, StoreView, TurnWithMeta, TurnWithMetaView,
};
use crate::turn_store::{created_head, spec_get_last, view_after_create};
use crate::wire::{
    blake3_digest, get_hash, hash32, now_unix_ms, slice_to_vec, string_from_utf8,
};
use vstd::slice::slice_subrange;
use vstd::utf8::{decode_utf8, encode_utf8, valid_utf8};
use crate::text::{decimal_chars, opt_text, u64_to_string};
use crate::turn_store::{ContextHead, TurnRecord};
use crate::wire::{
    get_u16_le, get_u32_le, get_u64_le, put_u16_le, put_u32_le, put_u64_le, u16_at, u32_at,
    u64_at,
};
use vstd::bytes::{
    lemma_auto_spec_u16_to_from_le_bytes, lemma_auto_spec_u32_to_from_le_bytes,
    lemma_auto_spec_u64_to_from_le_bytes, spec_u16_to_le_bytes, spec_u32_to_le_bytes,
    spec_u64_to_le_bytes,
};
use vstd::prelude::*;

verus! {

/// The length of the header of a frame.
pub const FRAME_HEADER_LEN: usize = 16;

/// The header of a frame.
#[derive(Debug, Clone, Copy, PartialEq, Eq, Structural)]
pub struct FrameHeader {
    pub msg_type: u16,
    pub flags: u16,
    pub req_id: u64,
    pub payload_len: u32,
}

/// A header as it stands on the wire: 16 bytes, little-endian.
pub open spec fn header_bytes(h: FrameHeader) -> Seq<u8> {
    spec_u16_to_le_bytes(h.msg_type) + spec_u16_to_le_bytes(h.flags) + spec_u64_to_le_bytes(
        h.req_id,
    ) + spec_u32_to_le_bytes(h.payload_len)
}

/// A frame as it stands on the wire: the header, then the payload.
pub open spec fn frame_bytes(msg_type: u16, flags: u16, req_id: u64, payload: Seq<u8>) -> Seq<u8> {
    header_bytes(FrameHeader { msg_type, flags, req_id, payload_len: payload.len() as u32 })
        + payload
}

/// The header that 16 bytes spell.
pub open spec fn decode_header(bytes: Seq<u8>) -> FrameHeader {
    FrameHeader {
        msg_type: u16_at(bytes, 0),
        flags: u16_at(bytes, 2),
        req_id: u64_at(bytes, 4),
        payload_len: u32_at(bytes, 12),
    }
}

/// The frame that a buffer starts with, if a whole frame is there: its
/// header and where it ends.
pub open spec fn first_frame(buf: Seq<u8>) -> Option<(FrameHeader, int)> {
    if buf.len() >= 16 && buf.len() >= 16 + decode_header(buf).payload_len {
        Some((decode_header(buf), 16 + decode_header(buf).payload_len))
    } else {
        None
    }
}

/// A frame's bytes start with the frame: header and payload read back.
pub proof fn lemma_frame_roundtrip(msg_type: u16, flags: u16, req_id: u64, payload: Seq<u8>, rest: Seq<u8>)
    requires
        payload.len() <= u32::MAX,
    ensures
        ({
            let buf = frame_bytes(msg_type, flags, req_id, payload) + rest;
            &&& first_frame(buf) == Some(
                (
                    FrameHeader { msg_type, flags, req_id, payload_len: payload.len() as u32 },
                    (16 + payload.len()) as int,
                ),
            )
            &&& buf.subrange(16, 16 + payload.len() as int) == payload
        }),
{
    lemma_auto_spec_u16_to_from_le_bytes();
    lemma_auto_spec_u32_to_from_le_bytes();
    lemma_auto_spec_u64_to_from_le_bytes();
    let buf = frame_bytes(msg_type, flags, req_id, payload) + rest;
    assert(buf.subrange(0, 2) =~= spec_u16_to_le_bytes(msg_type));
    assert(buf.subrange(2, 4) =~= spec_u16_to_le_bytes(flags));
    assert(buf.subrange(4, 12) =~= spec_u64_to_le_bytes(req_id));
    assert(buf.subrange(12, 16) =~= spec_u32_to_le_bytes(payload.len() as u32));
    assert(buf.subrange(16, 16 + payload.len() as int) =~= payload);
}

/// Writes a frame: the header, then the payload.
///
/// Fails with `InvalidInput` where the payload is longer than the length
/// field can say.
pub fn write_frame(msg_type: u16, flags: u16, req_id: u64, payload: &[u8]) -> (r: Result<
    Vec<u8>,
    StoreError,
>)
    ensures
        match r {
            Ok(frame) => payload@.len() <= u32::MAX && frame@ == frame_bytes(
                msg_type,
                flags,
                req_id,
                payload@,
            ),
            Err(e) => payload@.len() > u32::MAX && e.kind() == ErrorKind::InvalidInput,
        },
{
    if payload.len() > u32::MAX as usize {
        return Err(StoreError::InvalidInput("payload too large".to_string()));
    }
    let mut frame: Vec<u8> = Vec::new();
    put_u16_le(&mut frame, msg_type);
    put_u16_le(&mut frame, flags);
    put_u64_le(&mut frame, req_id);
    put_u32_le(&mut frame, payload.len() as u32);
    frame.extend_from_slice(payload);
    assert(frame@ =~= frame_bytes(msg_type, flags, req_id, payload@));
    Ok(frame)
}

/// Reads the frame that a buffer starts with, if a whole frame is there:
/// its header and where it ends. The payload stands between the header and
/// that end.
pub fn read_frame(buf: &[u8]) -> (r: Option<(FrameHeader, usize)>)
    ensures
        match r {
            Some((header, end)) => first_frame(buf@) == Some((header, end as int)),
            None => first_frame(buf@) is None,
        },
{
    if buf.len() < 16 {
        return None;
    }
    let header = FrameHeader {
        msg_type: get_u16_le(buf, 0),
        flags: get_u16_le(buf, 2),
        req_id: get_u64_le(buf, 4),
        payload_len: get_u32_le(buf, 12),
    };
    if header.payload_len as u64 > (buf.len() - 16) as u64 {
        return None;
    }
    Some((header, 16 + header.payload_len as usize))
}

/// A request of a client.
#[derive(Debug)]
pub enum Request {
    /// The client announces itself.
    Hello { client_tag: String },
    /// Start a context on a turn, or an empty one with 0.
    CtxCreate { base_turn_id: u64 },
    /// Fork a context off a turn.
    CtxFork { base_turn_id: u64 },
    /// The head of a context.
    GetHead { context_id: u64 },
    /// Append a turn to a context.
    AppendTurn {
        context_id: u64,
        parent_turn_id: u64,
        declared_type_id: String,
        declared_type_version: u32,
        encoding: u32,
        compression: u32,
        uncompressed_len: u32,
        content_hash: [u8; 32],
        payload_bytes: Vec<u8>,
    },
    /// Put a blob under its hash.
    PutBlob { hash: [u8; 32], data: Vec<u8> },
    /// The last turns of a context.
    GetLast { context_id: u64, limit: u32, include_payload: bool },
    /// The bytes of a blob.
    GetBlob { hash: [u8; 32] },
}

/// The answer to a request.
#[derive(Debug)]
pub enum Response {
    /// To `Hello`: the session id and the version of the protocol.
    Hello { session_id: u64, protocol_version: u16 },
    /// To `CtxCreate`, `CtxFork` and `GetHead`: the head of the context.
    Context { context_id: u64, head_turn_id: u64, head_depth: u32 },
    /// To `AppendTurn`: the turn that was appended.
    AppendAck { context_id: u64, turn_id: u64, depth: u32, payload_hash: [u8; 32] },
    /// To `PutBlob`: whether the blob was new.
    PutBlob { hash: [u8; 32], was_new: bool },
    /// To `GetLast`: the turns.
    GetLast(Vec<TurnWithMeta>),
    /// To `GetBlob`: the bytes.
    GetBlob(Vec<u8>),
}

/// What an event looks like to those who read it: its name and the members
/// of its JSON object.
pub ghost struct Sketch {
    pub name: Seq<char>,
    pub members: Seq<(Seq<char>, JsonView)>,
}

/// The sketch of an event.
pub open spec fn sketch_of(e: StoreEvent) -> Sketch {
    Sketch { name: event_name(e), members: event_members(e) }
}

/// The sketches of a list of events.
pub open spec fn sketches(events: Seq<StoreEvent>) -> Seq<Sketch> {
    Seq::new(events.len(), |i: int| sketch_of(events[i]))
}

/// The text of an id.
pub open spec fn id_text(id: u64) -> JsonView {
    JsonView::String(decimal_chars(id as nat))
}

/// The members with one more, where there is a text to add.
pub open spec fn with_opt(
    members: Seq<(Seq<char>, JsonView)>,
    key: Seq<char>,
    value: Option<Seq<char>>,
) -> Seq<(Seq<char>, JsonView)> {
    match value {
        Some(s) => members.push((key, JsonView::String(s))),
        None => members,
    }
}

/// The event that a client connected.
pub open spec fn connected_sketch(session_id: u64, client_tag: Seq<char>) -> Sketch {
    Sketch {
        name: "client_connected"@,
        members: seq![
            ("session_id"@, id_text(session_id)),
            ("client_tag"@, JsonView::String(client_tag)),
        ],
    }
}

/// The event that a context was created.
pub open spec fn created_sketch(
    context_id: u64,
    session_id: u64,
    client_tag: Seq<char>,
    now_ms: u64,
) -> Sketch {
    Sketch {
        name: "context_created"@,
        members: seq![
            ("context_id"@, id_text(context_id)),
            ("session_id"@, id_text(session_id)),
            ("client_tag"@, JsonView::String(client_tag)),
            ("created_at"@, JsonView::Number(JsonNumber::PosInt(now_ms))),
        ],
    }
}

/// The event that a turn was appended.
pub open spec fn appended_sketch(
    context_id: u64,
    record: TurnRecord,
    declared_type_id: Seq<char>,
    declared_type_version: u32,
) -> Sketch {
    Sketch {
        name: "turn_appended"@,
        members: seq![
            ("context_id"@, id_text(context_id)),
            ("turn_id"@, id_text(record.turn_id)),
            ("parent_turn_id"@, id_text(record.parent_turn_id)),
            ("depth"@, JsonView::Number(JsonNumber::PosInt(record.depth as u64))),
            ("declared_type_id"@, JsonView::String(declared_type_id)),
            (
                "declared_type_version"@,
                JsonView::Number(JsonNumber::PosInt(declared_type_version as u64)),
            ),
        ],
    }
}

/// The event that the metadata of a context were taken from its first turn.
pub open spec fn metadata_sketch(context_id: u64, m: ContextMetadataView) -> Sketch {
    let base = with_opt(
        with_opt(
            seq![
                ("context_id"@, id_text(context_id)),
                ("has_provenance"@, JsonView::Bool(m.provenance is Some)),
            ],
            "client_tag"@,
            m.client_tag,
        ),
        "title"@,
        m.title,
    );
    Sketch {
        name: "context_metadata_updated"@,
        members: match m.labels {
            Some(l) => base.push(
                ("labels"@, JsonView::Array(Seq::new(l.len(), |i: int| JsonView::String(l[i])))),
            ),
            None => base,
        },
    }
}

/// The event that a context was linked to the context it came from.
pub open spec fn linked_sketch(
    context_id: u64,
    parent: u64,
    root: Option<u64>,
    spawn_reason: Option<Seq<char>>,
) -> Sketch {
    Sketch {
        name: "context_linked"@,
        members: with_opt(
            with_opt(
                seq![
                    ("child_context_id"@, id_text(context_id)),
                    ("parent_context_id"@, id_text(parent)),
                ],
                "root_context_id"@,
                match root {
                    Some(r) => Some(decimal_chars(r as nat)),
                    None => None,
                },
            ),
            "spawn_reason"@,
            spawn_reason,
        ),
    }
}

/// The event that a client disconnected.
pub open spec fn disconnected_sketch(session_id: u64, client_tag: Seq<char>, contexts: Seq<u64>) -> Sketch {
    Sketch {
        name: "client_disconnected"@,
        members: seq![
            ("session_id"@, id_text(session_id)),
            ("client_tag"@, JsonView::String(client_tag)),
            (
                "contexts"@,
                JsonView::Array(
                    Seq::new(contexts.len(), |i: int| JsonView::String(decimal_chars(contexts[i] as nat))),
                ),
            ),
        ],
    }
}

/// The events that follow an append: the turn was appended; where the
/// context got its metadata, they were updated; and where those name a
/// parent context, the context was linked to it.
pub open spec fn append_sketches(
    context_id: u64,
    record: TurnRecord,
    declared_type_id: Seq<char>,
    declared_type_version: u32,
    metadata: Option<ContextMetadataView>,
) -> Seq<Sketch> {
    let first = seq![appended_sketch(context_id, record, declared_type_id, declared_type_version)];
    match metadata {
        Some(m) => {
            let second = first.push(metadata_sketch(context_id, m));
            match m.provenance {
                Some(p) => match p.parent_context_id {
                    Some(parent) => second.push(
                        linked_sketch(context_id, parent, p.root_context_id, p.spawn_reason),
                    ),
                    None => second,
                },
                None => second,
            }
        },
        None => first,
    }
}

fn push_event(events: &mut Vec<StoreEvent>, event: StoreEvent)
    ensures
        sketches(final(events)@) == sketches(old(events)@).push(sketch_of(event)),
{
    let ghost before = sketches(events@);
    events.push(event);
    assert(sketches(events@) =~= before.push(sketch_of(event)));
}

/// The events that follow an append: see `append_sketches`.
pub fn append_events(
    context_id: u64,
    record: &TurnRecord,
    declared_type_id: String,
    declared_type_version: u32,
    metadata: Option<ContextMetadata>,
) -> (events: Vec<StoreEvent>)
    ensures
        sketches(events@) == append_sketches(
            context_id,
            *record,
            declared_type_id@,
            declared_type_version,
            opt_metadata(metadata),
        ),
{
    let mut events: Vec<StoreEvent> = Vec::new();
    assert(sketches(events@) =~= Seq::empty());
    let context_text = u64_to_string(context_id);
    let appended = StoreEvent::TurnAppended {
        context_id: context_text.clone(),
        turn_id: u64_to_string(record.turn_id),
        parent_turn_id: u64_to_string(record.parent_turn_id),
        depth: record.depth,
        declared_type_id: Some(declared_type_id),
        declared_type_version: Some(declared_type_version),
    };
    assert(event_members(appended) =~= appended_sketch(
        context_id,
        *record,
        declared_type_id@,
        declared_type_version,
    ).members);
    push_event(&mut events, appended);
    if let Some(meta) = metadata {
        let ghost mv = meta@;
        let has_provenance = meta.provenance.is_some();
        let link = match &meta.provenance {
            Some(prov) => match prov.parent_context_id {
                Some(parent) => Some(
                    StoreEvent::ContextLinked {
                        child_context_id: context_text.clone(),
                        parent_context_id: u64_to_string(parent),
                        root_context_id: match prov.root_context_id {
                            Some(root) => Some(u64_to_string(root)),
                            None => None,
                        },
                        spawn_reason: crate::text::clone_opt_string(&prov.spawn_reason),
                    },
                ),
                None => None,
            },
            None => None,
        };
        let updated = StoreEvent::ContextMetadataUpdated {
            context_id: context_text,
            client_tag: meta.client_tag,
            title: meta.title,
            labels: meta.labels,
            has_provenance,
        };
        proof {
            match mv.labels {
                Some(l) => {
                    assert(json_strings(updated->ContextMetadataUpdated_labels.unwrap()@)->Array_0
                        =~= Seq::new(l.len(), |i: int| JsonView::String(l[i])));
                },
                None => {},
            }
            assert(event_members(updated) =~= metadata_sketch(context_id, mv).members);
        }
        push_event(&mut events, updated);
        if let Some(linked) = link {
            proof {
                let p = mv.provenance.unwrap();
                assert(event_members(linked) =~= linked_sketch(
                    context_id,
                    p.parent_context_id.unwrap(),
                    p.root_context_id,
                    p.spawn_reason,
                ).members);
            }
            push_event(&mut events, linked);
        }
    }
    events
}

/// The session of a connected client.
pub struct Session {
    session_id: u64,
    client_tag: String,
    registered: bool,
    peer_addr: String,
}

/// What a `Session` holds.
pub ghost struct SessionView {
    pub session_id: u64,
    /// The tag that the client announced itself with, empty before it did.
    pub client_tag: Seq<char>,
    /// Whether the session is registered with the tracker.
    pub registered: bool,
    pub peer_addr: Seq<char>,
}

/// What handling a request gave: the answer, or the error that goes into an
/// error frame, and the events to publish.
pub struct Handled {
    pub response: Result<Response, StoreError>,
    pub events: Vec<StoreEvent>,
}

/// The tracker after a request of a session: the session was heard of, and
/// is registered, without a tag where it had not announced itself.
pub open spec fn tracker_ready(t: SessionTrackerView, s: SessionView, now_ms: u64) -> SessionTrackerView {
    let heard = view_after_activity(t, s.session_id, now_ms);
    if s.registered {
        heard
    } else {
        view_after_register(heard, s.session_id, Seq::empty(), Some(s.peer_addr), now_ms)
    }
}

/// What `Hello` does: the answer names the session and the version of the
/// protocol; the first `Hello` registers the session under the tag of the
/// client and announces that it connected.
pub open spec fn hello_post(
    s0: SessionView,
    s1: SessionView,
    t0: SessionTrackerView,
    t1: SessionTrackerView,
    client_tag: Seq<char>,
    now_ms: u64,
    response: Result<Response, StoreError>,
    events: Seq<StoreEvent>,
) -> bool {
    &&& (response is Ok)
    &&& (response.unwrap() matches Response::Hello { session_id, protocol_version }
        && session_id == s0.session_id && protocol_version == 1)
    &&& (if s0.registered {
        &&& s1 == s0
        &&& t1 == view_after_activity(
            t0,
            s0.session_id,
            now_ms,
        )
        &&& events.len() == 0
    } else {
        &&& s1 == (SessionView {
            client_tag: client_tag,
            registered: true,
            ..s0
        })
        &&& t1 == view_after_register(
            view_after_activity(t0, s0.session_id, now_ms),
            s0.session_id,
            client_tag,
            Some(s0.peer_addr),
            now_ms,
        )
        &&& sketches(events) == seq![
            connected_sketch(s0.session_id, client_tag),
        ]
    })
}

/// Whether a base turn is one that no context can start from: one that is
/// absent, or 0 for a fork.
pub open spec fn base_missing(v: StoreView, base_turn_id: u64, fork: bool) -> bool {
    if base_turn_id == 0 {
        fork
    } else {
        !v.turns.turns.contains_key(base_turn_id)
    }
}

/// What `CtxCreate` and, with `fork`, `CtxFork` do: the session is
/// registered; the context is created under an id that no context has, put
/// under the session and announced; or the store is left as it was, with
/// `NotFound` where the base turn is missing and `InvalidInput` where no
/// context id is left.
pub open spec fn create_post(
    s0: SessionView,
    s1: SessionView,
    t0: SessionTrackerView,
    t1: SessionTrackerView,
    v0: StoreView,
    v1: StoreView,
    base_turn_id: u64,
    fork: bool,
    now_ms: u64,
    response: Result<Response, StoreError>,
    events: Seq<StoreEvent>,
) -> bool {
    &&& (s1 == (SessionView { registered: true, ..s0 }))
    &&& (v1.blobs == v0.blobs)
    &&& (v1.cache == v0.cache)
    &&& (v1.indexes == v0.indexes)
    &&& (match response {
        Ok(response) => {
            let head = created_head(v0.turns, base_turn_id, now_ms);
            &&& !base_missing(v0, base_turn_id, fork)
            &&& v0.turns.next_context_id < u64::MAX
            &&& !v0.turns.heads.contains_key(head.context_id)
            &&& response matches Response::Context {
                context_id,
                head_turn_id,
                head_depth,
            } && context_id == head.context_id && head_turn_id == head.head_turn_id
                && head_depth == head.head_depth
            &&& v1.turns == view_after_create(v0.turns, head)
            &&& t1 == view_after_add_context(
                tracker_ready(t0, s0, now_ms),
                s0.session_id,
                head.context_id,
            )
            &&& sketches(events) == seq![
                created_sketch(
                    head.context_id,
                    s0.session_id,
                    s0.client_tag,
                    now_ms,
                ),
            ]
        },
        Err(e) => {
            &&& v1.turns == v0.turns
            &&& t1 == tracker_ready(t0, s0, now_ms)
            &&& events.len() == 0
            &&& if base_missing(v0, base_turn_id, fork) {
                e.kind() == ErrorKind::NotFound
            } else {
                e.kind() == ErrorKind::InvalidInput && v0.turns.next_context_id == u64::MAX
            }
        },
    })
}

/// What `AppendTurn` does: the turn is appended as `Store::append_turn_at`
/// says, the answer names it, and the events of the append are given; or
/// the error of the store comes back.
pub open spec fn append_post(
    s0: SessionView,
    s1: SessionView,
    t0: SessionTrackerView,
    t1: SessionTrackerView,
    v0: StoreView,
    v1: StoreView,
    a: AppendArgs,
    response: Result<Response, StoreError>,
    events: Seq<StoreEvent>,
) -> bool {
    &&& s1 == s0
    &&& t1 == view_after_activity(t0, s0.session_id, a.now_ms)
    &&& v1 == store_after_append(v0, a)
    &&& match append_result(v0, a) {
        Ok((record, metadata)) => {
            &&& response is Ok
            &&& response.unwrap() matches Response::AppendAck {
                context_id,
                turn_id,
                depth,
                payload_hash,
            } && context_id == a.context_id && turn_id == record.turn_id && depth == record.depth
                && payload_hash == record.payload_hash
            &&& sketches(events) == append_sketches(
                a.context_id,
                record,
                a.declared_type_id,
                a.declared_type_version,
                metadata,
            )
        },
        Err(kind) => response is Err && response.unwrap_err().kind() == kind && events.len()
            == 0,
    }
}

/// What `GetHead`, `GetLast`, `GetBlob` and `PutBlob` do: the answer is what
/// the store gives, and no event follows.
pub open spec fn query_post(
    s0: SessionView,
    t0: SessionTrackerView,
    t1: SessionTrackerView,
    v0: StoreView,
    v1: StoreView,
    request: Request,
    now_ms: u64,
    response: Result<Response, StoreError>,
    events: Seq<StoreEvent>,
) -> bool {
    &&& (events.len() == 0)
    &&& (t1 == view_after_activity(t0, s0.session_id, now_ms))
    &&& (!(request is PutBlob) ==> v1 == v0)
    &&& (match request {
        Request::GetHead { context_id } => match response {
            Ok(response) => {
                &&& v0.turns.heads.contains_key(context_id)
                &&& response matches Response::Context {
                    context_id: c,
                    head_turn_id,
                    head_depth,
                } && c == v0.turns.heads[context_id].context_id && head_turn_id
                    == v0.turns.heads[context_id].head_turn_id && head_depth
                    == v0.turns.heads[context_id].head_depth
            },
            Err(e) => !v0.turns.heads.contains_key(context_id) && e.kind()
                == ErrorKind::NotFound,
        },
        Request::GetLast { context_id, limit, include_payload } => match spec_get_last(
            v0.turns,
            context_id,
            limit,
        ) {
            None => response is Err && response.unwrap_err().kind()
                == ErrorKind::NotFound,
            Some(turns) => match response {
                Ok(response) => response matches Response::GetLast(items)
                    && (with_meta_all(v0, turns, include_payload) == Ok::<
                    Seq<TurnWithMetaView>,
                    ErrorKind,
                >(turns_with_meta_view(items@))),
                Err(e) => with_meta_all(v0, turns, include_payload) == Err::<
                    Seq<TurnWithMetaView>,
                    ErrorKind,
                >(e.kind()),
            },
        },
        Request::GetBlob { hash } => match response {
            Ok(response) => response matches Response::GetBlob(raw) && (spec_get_blob(
                v0.blobs,
                hash@,
            ) == BlobRead::Content(raw@)),
            Err(e) => spec_get_blob(v0.blobs, hash@) == BlobRead::Failure(
                e.kind(),
            ),
        },
        Request::PutBlob { hash, data } => if blake3_digest(data@) != hash@ || (
        data@.len() > u32::MAX && !v0.blobs.index.contains_key(hash@)) {
            &&& response is Err
            &&& response.unwrap_err().kind() == ErrorKind::InvalidInput
            &&& v1 == v0
        } else {
            &&& response is Ok
            &&& response.unwrap() matches Response::PutBlob { hash: h, was_new } && h
                == hash && was_new == !v0.blobs.index.contains_key(hash@)
            &&& v1 == (StoreView {
                blobs: blobs_after_put(v0.blobs, hash@, data@),
                ..v0
            })
        },
        _ => true,
    })
}

/// What handling a request does, by the kind of the request.
pub open spec fn handled(
    s0: SessionView,
    s1: SessionView,
    t0: SessionTrackerView,
    t1: SessionTrackerView,
    v0: StoreView,
    v1: StoreView,
    request: Request,
    now_ms: u64,
    response: Result<Response, StoreError>,
    events: Seq<StoreEvent>,
) -> bool {
    match request {
        Request::Hello { client_tag } => v1 == v0 && hello_post(
            s0,
            s1,
            t0,
            t1,
            client_tag@,
            now_ms,
            response,
            events,
        ),
        Request::CtxCreate { base_turn_id } => create_post(
            s0,
            s1,
            t0,
            t1,
            v0,
            v1,
            base_turn_id,
            false,
            now_ms,
            response,
            events,
        ),
        Request::CtxFork { base_turn_id } => create_post(
            s0,
            s1,
            t0,
            t1,
            v0,
            v1,
            base_turn_id,
            true,
            now_ms,
            response,
            events,
        ),
        Request::AppendTurn {
            context_id,
            parent_turn_id,
            declared_type_id,
            declared_type_version,
            encoding,
            compression,
            uncompressed_len,
            content_hash,
            payload_bytes,
        } => append_post(
            s0,
            s1,
            t0,
            t1,
            v0,
            v1,
            append_args(
                context_id,
                parent_turn_id,
                declared_type_id@,
                declared_type_version,
                encoding,
                compression,
                uncompressed_len,
                content_hash,
                payload_bytes@,
                now_ms,
            ),
            response,
            events,
        ),
        _ => s1 == s0 && query_post(s0, t0, t1, v0, v1, request, now_ms, response, events),
    }
}

impl View for Session {
    type V = SessionView;

    closed spec fn view(&self) -> SessionView {
        SessionView {
            session_id: self.session_id,
            client_tag: self.client_tag@,
            registered: self.registered,
            peer_addr: self.peer_addr@,
        }
    }
}

impl Session {
    /// The session of a client that has connected from an address.
    pub fn new(session_id: u64, peer_addr: String) -> (s: Session)
        ensures
            s@ == (SessionView {
                session_id,
                client_tag: Seq::empty(),
                registered: false,
                peer_addr: peer_addr@,
            }),
    {
        Session { session_id, client_tag: String::new(), registered: false, peer_addr }
    }

    /// The id of the session.
    pub fn session_id(&self) -> (id: u64)
        ensures
            id == self@.session_id,
    {
        self.session_id
    }

    /// Handles `Hello`: the first registers the session under the tag of the
    /// client and announces that it connected.
    pub fn hello(&mut self, client_tag: String, tracker: &mut SessionTracker, now_ms: u64) -> (r:
        Handled)
        ensures
            hello_post(
                old(self)@,
                final(self)@,
                old(tracker)@,
                final(tracker)@,
                client_tag@,
                now_ms,
                r.response,
                r.events@,
            ),
    {
        tracker.record_activity_at(self.session_id, now_ms);
        let mut events: Vec<StoreEvent> = Vec::new();
        assert(sketches(events@) =~= Seq::empty());
        if !self.registered {
            tracker.register_at(
                self.session_id,
                client_tag.clone(),
                Some(self.peer_addr.clone()),
                now_ms,
            );
            let event = StoreEvent::ClientConnected {
                session_id: u64_to_string(self.session_id),
                client_tag: client_tag.clone(),
            };
            assert(event_members(event) =~= connected_sketch(
                self.session_id,
                client_tag@,
            ).members);
            push_event(&mut events, event);
            self.client_tag = client_tag;
            self.registered = true;
        }
        Handled {
            response: Ok(Response::Hello { session_id: self.session_id, protocol_version: 1 }),
            events,
        }
    }

    /// Registers the session without a tag, where it is not registered.
    fn ensure_registered(&mut self, tracker: &mut SessionTracker, now_ms: u64)
        ensures
            final(self)@ == (SessionView { registered: true, ..old(self)@ }),
            final(tracker)@ == tracker_ready(old(tracker)@, old(self)@, now_ms),
    {
        tracker.record_activity_at(self.session_id, now_ms);
        if !self.registered {
            tracker.register_at(
                self.session_id,
                String::new(),
                Some(self.peer_addr.clone()),
                now_ms,
            );
            self.registered = true;
        }
    }

    /// Handles `CtxCreate`: the context is created and put under the
    /// session, and it is announced that it was created.
    ///
    /// The error of the store comes back where the base turn is absent or no
    /// context id is left; the session is registered all the same.
    pub fn create_context(
        &mut self,
        base_turn_id: u64,
        store: &mut Store,
        tracker: &mut SessionTracker,
        now_ms: u64,
    ) -> (r: Handled)
        requires
            old(store).wf(),
        ensures
            final(store).wf(),
            create_post(
                old(self)@,
                final(self)@,
                old(tracker)@,
                final(tracker)@,
                old(store)@,
                final(store)@,
                base_turn_id,
                false,
                now_ms,
                r.response,
                r.events@,
            ),
    {
        self.open_context(base_turn_id, false, store, tracker, now_ms)
    }

    /// Handles `CtxFork`: as `CtxCreate`, but the base turn must exist.
    pub fn fork_context(
        &mut self,
        base_turn_id: u64,
        store: &mut Store,
        tracker: &mut SessionTracker,
        now_ms: u64,
    ) -> (r: Handled)
        requires
            old(store).wf(),
        ensures
            final(store).wf(),
            create_post(
                old(self)@,
                final(self)@,
                old(tracker)@,
                final(tracker)@,
                old(store)@,
                final(store)@,
                base_turn_id,
                true,
                now_ms,
                r.response,
                r.events@,
            ),
    {
        self.open_context(base_turn_id, true, store, tracker, now_ms)
    }

    /// Creates or forks a context for the session: see `create_post`.
    fn open_context(
        &mut self,
        base_turn_id: u64,
        fork: bool,
        store: &mut Store,
        tracker: &mut SessionTracker,
        now_ms: u64,
    ) -> (r: Handled)
        requires
            old(store).wf(),
        ensures
            final(store).wf(),
            create_post(
                old(self)@,
                final(self)@,
                old(tracker)@,
                final(tracker)@,
                old(store)@,
                final(store)@,
                base_turn_id,
                fork,
                now_ms,
                r.response,
                r.events@,
            ),
    {
        self.ensure_registered(tracker, now_ms);
        let made = if fork {
            store.fork_context_at(base_turn_id, now_ms)
        } else {
            store.create_context_at(base_turn_id, now_ms)
        };
        let mut events: Vec<StoreEvent> = Vec::new();
        assert(sketches(events@) =~= Seq::empty());
        let head = match made {
            Ok(head) => head,
            Err(e) => {
                return Handled { response: Err(e), events };
            },
        };
        tracker.add_context(self.session_id, head.context_id);
        let event = StoreEvent::ContextCreated {
            context_id: u64_to_string(head.context_id),
            session_id: u64_to_string(self.session_id),
            client_tag: self.client_tag.clone(),
            created_at: now_ms,
        };
        assert(event_members(event) =~= created_sketch(
            head.context_id,
            self.session_id,
            self.client_tag@,
            now_ms,
        ).members);
        push_event(&mut events, event);
        Handled {
            response: Ok(
                Response::Context {
                    context_id: head.context_id,
                    head_turn_id: head.head_turn_id,
                    head_depth: head.head_depth,
                },
            ),
            events,
        }
    }

    /// Handles `AppendTurn`: the turn is appended, and the events of the
    /// append are given: see `Store::append_turn_at` and `append_sketches`.
    pub fn append_turn(
        &mut self,
        context_id: u64,
        parent_turn_id: u64,
        declared_type_id: String,
        declared_type_version: u32,
        encoding: u32,
        compression: u32,
        uncompressed_len: u32,
        content_hash: [u8; 32],
        payload_bytes: &[u8],
        store: &mut Store,
        tracker: &mut SessionTracker,
        now_ms: u64,
    ) -> (r: Handled)
        requires
            old(store).wf(),
        ensures
            final(store).wf(),
            append_post(
                old(self)@,
                final(self)@,
                old(tracker)@,
                final(tracker)@,
                old(store)@,
                final(store)@,
                append_args(
                    context_id,
                    parent_turn_id,
                    declared_type_id@,
                    declared_type_version,
                    encoding,
                    compression,
                    uncompressed_len,
                    content_hash,
                    payload_bytes@,
                    now_ms,
                ),
                r.response,
                r.events@,
            ),
    {
        tracker.record_activity_at(self.session_id, now_ms);
        let type_id = declared_type_id.clone();
        match store.append_turn_at(
            context_id,
            parent_turn_id,
            declared_type_id,
            declared_type_version,
            encoding,
            compression,
            uncompressed_len,
            content_hash,
            payload_bytes,
            now_ms,
        ) {
            Ok((record, metadata)) => {
                let events = append_events(
                    context_id,
                    &record,
                    type_id,
                    declared_type_version,
                    metadata,
                );
                Handled {
                    response: Ok(
                        Response::AppendAck {
                            context_id,
                            turn_id: record.turn_id,
                            depth: record.depth,
                            payload_hash: record.payload_hash,
                        },
                    ),
                    events,
                }
            },
            Err(e) => Handled { response: Err(e), events: Vec::new() },
        }
    }

    /// Handles a request that reads the store, or puts a blob: `GetHead`,
    /// `GetLast`, `GetBlob` and `PutBlob`. No event follows.
    pub fn query(&self, request: &Request, store: &mut Store, tracker: &mut SessionTracker, now_ms: u64) -> (r:
        Handled)
        requires
            old(store).wf(),
            request is GetHead || request is GetLast || request is GetBlob || request is PutBlob,
        ensures
            final(store).wf(),
            query_post(
                self@,
                old(tracker)@,
                final(tracker)@,
                old(store)@,
                final(store)@,
                *request,
                now_ms,
                r.response,
                r.events@,
            ),
    {
        tracker.record_activity_at(self.session_id, now_ms);
        let response = match request {
            Request::GetHead { context_id } => match store.get_head(*context_id) {
                Ok(head) => Ok(
                    Response::Context {
                        context_id: head.context_id,
                        head_turn_id: head.head_turn_id,
                        head_depth: head.head_depth,
                    },
                ),
                Err(e) => Err(e),
            },
            Request::GetLast { context_id, limit, include_payload } => match store.get_last(
                *context_id,
                *limit,
                *include_payload,
            ) {
                Ok(items) => Ok(Response::GetLast(items)),
                Err(e) => Err(e),
            },
            Request::GetBlob { hash } => match store.get_blob(hash) {
                Ok(raw) => Ok(Response::GetBlob(raw)),
                Err(e) => Err(e),
            },
            Request::PutBlob { hash, data } => match store.put_blob(*hash, data.as_slice()) {
                Ok(was_new) => Ok(Response::PutBlob { hash: *hash, was_new }),
                Err(e) => Err(e),
            },
            _ => Err(StoreError::InvalidInput("unknown msg_type".to_string())),
        };
        Handled { response, events: Vec::new() }
    }

    /// Handles a request at the time `now_ms`: see `hello`, `create_context`,
    /// `append_turn` and `query`.
    pub fn handle_at(
        &mut self,
        request: Request,
        store: &mut Store,
        tracker: &mut SessionTracker,
        now_ms: u64,
    ) -> (r: Handled)
        requires
            old(store).wf(),
        ensures
            final(store).wf(),
            handled(
                old(self)@,
                final(self)@,
                old(tracker)@,
                final(tracker)@,
                old(store)@,
                final(store)@,
                request,
                now_ms,
                r.response,
                r.events@,
            ),
    {
        match request {
            Request::Hello { client_tag } => self.hello(client_tag, tracker, now_ms),
            Request::CtxCreate { base_turn_id } => self.create_context(
                base_turn_id,
                store,
                tracker,
                now_ms,
            ),
            Request::CtxFork { base_turn_id } => self.fork_context(
                base_turn_id,
                store,
                tracker,
                now_ms,
            ),
            Request::AppendTurn {
                context_id,
                parent_turn_id,
                declared_type_id,
                declared_type_version,
                encoding,
                compression,
                uncompressed_len,
                content_hash,
                payload_bytes,
            } => self.append_turn(
                context_id,
                parent_turn_id,
                declared_type_id,
                declared_type_version,
                encoding,
                compression,
                uncompressed_len,
                content_hash,
                payload_bytes.as_slice(),
                store,
                tracker,
                now_ms,
            ),
            other => self.query(&other, store, tracker, now_ms),
        }
    }

    /// Handles a request now: see `handle_at`.
    pub fn handle(&mut self, request: Request, store: &mut Store, tracker: &mut SessionTracker) -> (r:
        Handled)
        requires
            old(store).wf(),
        ensures
            final(store).wf(),
            exists|now_ms: u64| #[trigger]
                handled(
                    old(self)@,
                    final(self)@,
                    old(tracker)@,
                    final(tracker)@,
                    old(store)@,
                    final(store)@,
                    request,
                    now_ms,
                    r.response,
                    r.events@,
                ),
    {
        let now_ms = now_unix_ms();
        self.handle_at(request, store, tracker, now_ms)
    }

    /// Ends the session: it is unregistered, its contexts are live no more,
    /// and it is announced that the client disconnected, with the contexts
    /// it had created.
    pub fn close(self, tracker: &mut SessionTracker) -> (event: StoreEvent)
        ensures
            final(tracker)@ == view_after_unregister(old(tracker)@, self@.session_id),
            sketch_of(event) == disconnected_sketch(
                self@.session_id,
                self@.client_tag,
                match tagged(old(tracker)@.sessions, self@.session_id) {
                    Some(s) => s.contexts_created,
                    None => Seq::empty(),
                },
            ),
    {
        let orphaned = tracker.unregister(self.session_id);
        let mut contexts: Vec<String> = Vec::with_capacity(orphaned.len());
        let mut i: usize = 0;
        while i < orphaned.len()
            invariant
                i <= orphaned.len(),
                contexts@.len() == i,
                forall|k: int| 0 <= k < i ==> contexts@[k]@ == decimal_chars(orphaned@[k] as nat),
            decreases orphaned.len() - i,
        {
            contexts.push(u64_to_string(orphaned[i]));
            i += 1;
        }
        let event = StoreEvent::ClientDisconnected {
            session_id: u64_to_string(self.session_id),
            client_tag: self.client_tag,
            contexts,
        };
        proof {
            assert(json_strings(contexts@)->Array_0 =~= Seq::new(
                orphaned@.len(),
                |i: int| JsonView::String(decimal_chars(orphaned@[i] as nat)),
            ));
            assert(event_members(event) =~= disconnected_sketch(
                self@.session_id,
                self@.client_tag,
                orphaned@,
            ).members);
        }
        event
    }
}

/// One turn as it stands in the answer to `GetLast`: ids, depth, type id
/// with its length, version, encoding, compression, uncompressed length and
/// hash; then, where the payload is included, its length and its bytes. An
/// included payload is raw: the compression is 0 and the length is its own.
pub open spec fn last_item_bytes(item: TurnWithMetaView) -> Seq<u8> {
    let type_id = vstd::utf8::encode_utf8(item.meta.declared_type_id);
    let head = spec_u64_to_le_bytes(item.record.turn_id) + spec_u64_to_le_bytes(
        item.record.parent_turn_id,
    ) + spec_u32_to_le_bytes(item.record.depth) + spec_u32_to_le_bytes(type_id.len() as u32)
        + type_id + spec_u32_to_le_bytes(item.meta.declared_type_version) + spec_u32_to_le_bytes(
        item.meta.encoding,
    );
    match item.payload {
        Some(p) => head + spec_u32_to_le_bytes(0) + spec_u32_to_le_bytes(p.len() as u32)
            + item.record.payload_hash@ + spec_u32_to_le_bytes(p.len() as u32) + p,
        None => head + spec_u32_to_le_bytes(item.meta.compression) + spec_u32_to_le_bytes(
            item.meta.uncompressed_len,
        ) + item.record.payload_hash@,
    }
}

/// Whether the lengths of a turn fit their fields.
pub open spec fn last_item_fits(item: TurnWithMetaView) -> bool {
    &&& vstd::utf8::encode_utf8(item.meta.declared_type_id).len() <= u32::MAX
    &&& match item.payload {
        Some(p) => p.len() <= u32::MAX,
        None => true,
    }
}

/// The first `n` turns as they stand in the answer to `GetLast`.
pub open spec fn last_items_bytes(items: Seq<TurnWithMetaView>, n: nat) -> Seq<u8>
    decreases n,
{
    if n == 0 || n > items.len() {
        Seq::empty()
    } else {
        last_items_bytes(items, (n - 1) as nat) + last_item_bytes(items[n - 1])
    }
}

/// Whether an answer to `GetLast` can be encoded: the number of turns and
/// the lengths of each fit their fields.
pub open spec fn get_last_fits(items: Seq<TurnWithMetaView>) -> bool {
    items.len() <= u32::MAX && forall|i: int|
        0 <= i < items.len() ==> last_item_fits(#[trigger] items[i])
}

/// The payload of the answer to `GetLast`: the number of turns, then the
/// turns.
pub open spec fn get_last_payload(items: Seq<TurnWithMetaView>) -> Seq<u8> {
    spec_u32_to_le_bytes(items.len() as u32) + last_items_bytes(items, items.len())
}

/// Encodes the payload of the answer to `GetLast`.
///
/// Fails with `InvalidInput` where a number or a length does not fit its
/// field.
pub fn encode_get_last(items: &Vec<TurnWithMeta>) -> (r: Result<Vec<u8>, StoreError>)
    ensures
        match r {
            Ok(payload) => get_last_fits(turns_with_meta_view(items@)) && payload@
                == get_last_payload(turns_with_meta_view(items@)),
            Err(e) => !get_last_fits(turns_with_meta_view(items@)) && e.kind()
                == ErrorKind::InvalidInput,
        },
{
    let ghost all = turns_with_meta_view(items@);
    if items.len() > u32::MAX as usize {
        return Err(StoreError::InvalidInput("too many turns".to_string()));
    }
    let mut resp: Vec<u8> = Vec::new();
    put_u32_le(&mut resp, items.len() as u32);
    let ghost start = resp@;
    let mut i: usize = 0;
    assert(resp@ =~= start + last_items_bytes(all, 0));
    while i < items.len()
        invariant
            i <= items.len(),
            all == turns_with_meta_view(items@),
            start == spec_u32_to_le_bytes(items@.len() as u32),
            resp@ == start + last_items_bytes(all, i as nat),
            forall|k: int| 0 <= k < i ==> last_item_fits(#[trigger] all[k]),
        decreases items.len() - i,
    {
        let ghost before = resp@;
        if !push_last_item(&mut resp, &items[i]) {
            assert(!last_item_fits(all[i as int]));
            return Err(StoreError::InvalidInput("turn too large".to_string()));
        }
        assert(resp@ =~= start + last_items_bytes(all, (i + 1) as nat)) by {
            assert(last_items_bytes(all, (i + 1) as nat) == last_items_bytes(all, i as nat)
                + last_item_bytes(all[i as int]));
        }
        i += 1;
    }
    Ok(resp)
}

/// Appends one turn as it stands in the answer to `GetLast`, where its
/// lengths fit their fields; else nothing is appended.
fn push_last_item(resp: &mut Vec<u8>, item: &TurnWithMeta) -> (ok: bool)
    ensures
        ok == last_item_fits(item@),
        ok ==> final(resp)@ == old(resp)@ + last_item_bytes(item@),
        !ok ==> final(resp)@ == old(resp)@,
{
    let type_id = item.meta.declared_type_id.as_str().as_bytes();
    if type_id.len() > u32::MAX as usize {
        return false;
    }
    if let Some(payload) = &item.payload {
        if payload.len() > u32::MAX as usize {
            return false;
        }
    }
    let ghost before = resp@;
    put_u64_le(resp, item.record.turn_id);
    put_u64_le(resp, item.record.parent_turn_id);
    put_u32_le(resp, item.record.depth);
    put_u32_le(resp, type_id.len() as u32);
    resp.extend_from_slice(type_id);
    put_u32_le(resp, item.meta.declared_type_version);
    put_u32_le(resp, item.meta.encoding);
    match &item.payload {
        Some(payload) => {
            put_u32_le(resp, 0);
            put_u32_le(resp, payload.len() as u32);
            resp.extend_from_slice(item.record.payload_hash.as_slice());
            put_u32_le(resp, payload.len() as u32);
            resp.extend_from_slice(payload.as_slice());
        },
        None => {
            put_u32_le(resp, item.meta.compression);
            put_u32_le(resp, item.meta.uncompressed_len);
            resp.extend_from_slice(item.record.payload_hash.as_slice());
        },
    }
    assert(resp@ =~= before + last_item_bytes(item@));
    true
}

/// The payload of the answer to `GetBlob`: the length of the blob, then its
/// bytes.
pub open spec fn get_blob_payload(raw: Seq<u8>) -> Seq<u8> {
    spec_u32_to_le_bytes(raw.len() as u32) + raw
}

/// Encodes the payload of the answer to `GetBlob`.
///
/// Fails with `InvalidInput` where the blob is longer than its length field
/// can say.
pub fn encode_get_blob(raw: &[u8]) -> (r: Result<Vec<u8>, StoreError>)
    ensures
        match r {
            Ok(payload) => raw@.len() <= u32::MAX && payload@ == get_blob_payload(raw@),
            Err(e) => raw@.len() > u32::MAX && e.kind() == ErrorKind::InvalidInput,
        },
{
    if raw.len() > u32::MAX as usize {
        return Err(StoreError::InvalidInput("blob too large".to_string()));
    }
    let mut resp: Vec<u8> = Vec::new();
    put_u32_le(&mut resp, raw.len() as u32);
    resp.extend_from_slice(raw);
    Ok(resp)
}

/// The type of a `Hello` message.
pub const MSG_HELLO: u16 = 1;

/// The type of a `CtxCreate` message.
pub const MSG_CTX_CREATE: u16 = 2;

/// The type of a `CtxFork` message.
pub const MSG_CTX_FORK: u16 = 3;

/// The type of a `GetHead` message.
pub const MSG_GET_HEAD: u16 = 4;

/// The type of an `AppendTurn` message.
pub const MSG_APPEND_TURN: u16 = 5;

/// The type of a `GetLast` message.
pub const MSG_GET_LAST: u16 = 6;

/// The type of a `GetBlob` message.
pub const MSG_GET_BLOB: u16 = 9;

/// The type of a `PutBlob` message.
pub const MSG_PUT_BLOB: u16 = 11;

/// The type of an `Error` message.
pub const MSG_ERROR: u16 = 255;

/// What a `Request` holds.
pub ghost enum RequestView {
    Hello { client_tag: Seq<char> },
    CtxCreate { base_turn_id: u64 },
    CtxFork { base_turn_id: u64 },
    GetHead { context_id: u64 },
    AppendTurn {
        context_id: u64,
        parent_turn_id: u64,
        declared_type_id: Seq<char>,
        declared_type_version: u32,
        encoding: u32,
        compression: u32,
        uncompressed_len: u32,
        content_hash: Seq<u8>,
        payload_bytes: Seq<u8>,
    },
    PutBlob { hash: Seq<u8>, data: Seq<u8> },
    GetLast { context_id: u64, limit: u32, include_payload: bool },
    GetBlob { hash: Seq<u8> },
}

impl View for Request {
    type V = RequestView;

    open spec fn view(&self) -> RequestView {
        match self {
            Request::Hello { client_tag } => RequestView::Hello { client_tag: client_tag@ },
            Request::CtxCreate { base_turn_id } => RequestView::CtxCreate {
                base_turn_id: *base_turn_id,
            },
            Request::CtxFork { base_turn_id } => RequestView::CtxFork {
                base_turn_id: *base_turn_id,
            },
            Request::GetHead { context_id } => RequestView::GetHead { context_id: *context_id },
            Request::AppendTurn {
                context_id,
                parent_turn_id,
                declared_type_id,
                declared_type_version,
                encoding,
                compression,
                uncompressed_len,
                content_hash,
                payload_bytes,
            } => RequestView::AppendTurn {
                context_id: *context_id,
                parent_turn_id: *parent_turn_id,
                declared_type_id: declared_type_id@,
                declared_type_version: *declared_type_version,
                encoding: *encoding,
                compression: *compression,
                uncompressed_len: *uncompressed_len,
                content_hash: content_hash@,
                payload_bytes: payload_bytes@,
            },
            Request::PutBlob { hash, data } => RequestView::PutBlob { hash: hash@, data: data@ },
            Request::GetLast { context_id, limit, include_payload } => RequestView::GetLast {
                context_id: *context_id,
                limit: *limit,
                include_payload: *include_payload,
            },
            Request::GetBlob { hash } => RequestView::GetBlob { hash: hash@ },
        }
    }
}

/// The `Hello` that a payload spells: the version of the protocol, the
/// length of the client tag in two bytes, and the tag. What follows is
/// passed over.
pub open spec fn hello_of(p: Seq<u8>) -> Option<RequestView> {
    if p.len() >= 4 && p.len() >= 4 + u16_at(p, 2) && valid_utf8(
        p.subrange(4, 4 + u16_at(p, 2)),
    ) {
        Some(RequestView::Hello { client_tag: decode_utf8(p.subrange(4, 4 + u16_at(p, 2))) })
    } else {
        None
    }
}

/// The `AppendTurn` that a payload spells: context, parent, the type id with
/// its length, version, encoding, compression, uncompressed length, hash,
/// and the payload with its length. What follows is passed over.
pub open spec fn append_of(p: Seq<u8>) -> Option<RequestView> {
    if p.len() < 20 {
        None
    } else {
        let n = u32_at(p, 16) as int;
        if p.len() < 20 + n + 52 || !valid_utf8(p.subrange(20, 20 + n)) {
            None
        } else {
            let m = u32_at(p, 68 + n) as int;
            if p.len() < 72 + n + m {
                None
            } else {
                Some(
                    RequestView::AppendTurn {
                        context_id: u64_at(p, 0),
                        parent_turn_id: u64_at(p, 8),
                        declared_type_id: decode_utf8(p.subrange(20, 20 + n)),
                        declared_type_version: u32_at(p, 20 + n),
                        encoding: u32_at(p, 24 + n),
                        compression: u32_at(p, 28 + n),
                        uncompressed_len: u32_at(p, 32 + n),
                        content_hash: p.subrange(36 + n, 68 + n),
                        payload_bytes: p.subrange(72 + n, 72 + n + m),
                    },
                )
            }
        }
    }
}

/// The request that a message spells, if its type is known and its payload
/// is whole.
pub open spec fn request_of(msg_type: u16, p: Seq<u8>) -> Option<RequestView> {
    if msg_type == MSG_HELLO {
        hello_of(p)
    } else if msg_type == MSG_CTX_CREATE {
        if p.len() >= 8 {
            Some(RequestView::CtxCreate { base_turn_id: u64_at(p, 0) })
        } else {
            None
        }
    } else if msg_type == MSG_CTX_FORK {
        if p.len() >= 8 {
            Some(RequestView::CtxFork { base_turn_id: u64_at(p, 0) })
        } else {
            None
        }
    } else if msg_type == MSG_GET_HEAD {
        if p.len() >= 8 {
            Some(RequestView::GetHead { context_id: u64_at(p, 0) })
        } else {
            None
        }
    } else if msg_type == MSG_APPEND_TURN {
        append_of(p)
    } else if msg_type == MSG_GET_LAST {
        if p.len() >= 16 {
            Some(
                RequestView::GetLast {
                    context_id: u64_at(p, 0),
                    limit: u32_at(p, 8),
                    include_payload: u32_at(p, 12) != 0,
                },
            )
        } else {
            None
        }
    } else if msg_type == MSG_GET_BLOB {
        if p.len() >= 32 {
            Some(RequestView::GetBlob { hash: p.subrange(0, 32) })
        } else {
            None
        }
    } else if msg_type == MSG_PUT_BLOB {
        if p.len() >= 36 && p.len() >= 36 + u32_at(p, 32) {
            Some(
                RequestView::PutBlob {
                    hash: p.subrange(0, 32),
                    data: p.subrange(36, 36 + u32_at(p, 32)),
                },
            )
        } else {
            None
        }
    } else {
        None
    }
}

fn parse_hello(p: &[u8]) -> (r: Option<Request>)
    ensures
        match r {
            Some(req) => hello_of(p@) == Some(req@),
            None => hello_of(p@) is None,
        },
{
    if p.len() < 4 {
        return None;
    }
    let n = get_u16_le(p, 2) as usize;
    if p.len() - 4 < n {
        return None;
    }
    match string_from_utf8(slice_to_vec(slice_subrange(p, 4, 4 + n))) {
        Some(client_tag) => Some(Request::Hello { client_tag }),
        None => None,
    }
}

fn parse_append_turn(p: &[u8]) -> (r: Option<Request>)
    ensures
        match r {
            Some(req) => append_of(p@) == Some(req@),
            None => append_of(p@) is None,
        },
{
    if p.len() < 20 {
        return None;
    }
    let n32 = get_u32_le(p, 16);
    if n32 as u64 > (p.len() - 20) as u64 {
        return None;
    }
    let n = n32 as usize;
    if p.len() - 20 - n < 52 {
        return None;
    }
    let declared_type_id = match string_from_utf8(slice_to_vec(slice_subrange(p, 20, 20 + n))) {
        Some(t) => t,
        None => {
            return None;
        },
    };
    let m32 = get_u32_le(p, 68 + n);
    if m32 as u64 > (p.len() - 72 - n) as u64 {
        return None;
    }
    let m = m32 as usize;
    Some(
        Request::AppendTurn {
            context_id: get_u64_le(p, 0),
            parent_turn_id: get_u64_le(p, 8),
            declared_type_id,
            declared_type_version: get_u32_le(p, 20 + n),
            encoding: get_u32_le(p, 24 + n),
            compression: get_u32_le(p, 28 + n),
            uncompressed_len: get_u32_le(p, 32 + n),
            content_hash: get_hash(p, 36 + n),
            payload_bytes: slice_to_vec(slice_subrange(p, 72 + n, 72 + n + m)),
        },
    )
}

/// Decodes the request that a message spells: see `request_of`.
///
/// Fails with `InvalidInput` where the type is unknown or the payload is
/// not whole.
pub fn decode_request(msg_type: u16, p: &[u8]) -> (r: Result<Request, StoreError>)
    ensures
        match r {
            Ok(req) => request_of(msg_type, p@) == Some(req@),
            Err(e) => request_of(msg_type, p@) is None && e.kind() == ErrorKind::InvalidInput,
        },
{
    let parsed = if msg_type == MSG_HELLO {
        parse_hello(p)
    } else if msg_type == MSG_CTX_CREATE {
        if p.len() >= 8 {
            Some(Request::CtxCreate { base_turn_id: get_u64_le(p, 0) })
        } else {
            None
        }
    } else if msg_type == MSG_CTX_FORK {
        if p.len() >= 8 {
            Some(Request::CtxFork { base_turn_id: get_u64_le(p, 0) })
        } else {
            None
        }
    } else if msg_type == MSG_GET_HEAD {
        if p.len() >= 8 {
            Some(Request::GetHead { context_id: get_u64_le(p, 0) })
        } else {
            None
        }
    } else if msg_type == MSG_APPEND_TURN {
        parse_append_turn(p)
    } else if msg_type == MSG_GET_LAST {
        if p.len() >= 16 {
            Some(
                Request::GetLast {
                    context_id: get_u64_le(p, 0),
                    limit: get_u32_le(p, 8),
                    include_payload: get_u32_le(p, 12) != 0,
                },
            )
        } else {
            None
        }
    } else if msg_type == MSG_GET_BLOB {
        if p.len() >= 32 {
            Some(Request::GetBlob { hash: get_hash(p, 0) })
        } else {
            None
        }
    } else if msg_type == MSG_PUT_BLOB {
        if p.len() >= 36 {
            let n32 = get_u32_le(p, 32);
            if n32 as u64 > (p.len() - 36) as u64 {
                None
            } else {
                Some(
                    Request::PutBlob {
                        hash: get_hash(p, 0),
                        data: slice_to_vec(slice_subrange(p, 36, 36 + n32 as usize)),
                    },
                )
            }
        } else {
            None
        }
    } else {
        return Err(StoreError::InvalidInput("unknown msg_type".to_string()));
    };
    match parsed {
        Some(req) => Ok(req),
        None => Err(StoreError::InvalidInput("malformed payload".to_string())),
    }
}

/// The payload of an answer, where its lengths fit their fields: the session
/// id and the version for `Hello`; context, head turn and head depth for a
/// context; context, turn, depth and hash for an acknowledgement; hash and a
/// byte that is 1 for a new blob for `PutBlob`; and for `GetLast` and
/// `GetBlob` as `get_last_payload` and `get_blob_payload` say.
pub open spec fn response_payload(r: Response) -> Option<Seq<u8>> {
    match r {
        Response::Hello { session_id, protocol_version } => Some(
            spec_u64_to_le_bytes(session_id) + spec_u16_to_le_bytes(protocol_version),
        ),
        Response::Context { context_id, head_turn_id, head_depth } => Some(
            spec_u64_to_le_bytes(context_id) + spec_u64_to_le_bytes(head_turn_id)
                + spec_u32_to_le_bytes(head_depth),
        ),
        Response::AppendAck { context_id, turn_id, depth, payload_hash } => Some(
            spec_u64_to_le_bytes(context_id) + spec_u64_to_le_bytes(turn_id)
                + spec_u32_to_le_bytes(depth) + payload_hash@,
        ),
        Response::PutBlob { hash, was_new } => Some(
            hash@.push(
                if was_new {
                    1u8
                } else {
                    0u8
                },
            ),
        ),
        Response::GetLast(items) => if get_last_fits(turns_with_meta_view(items@)) {
            Some(get_last_payload(turns_with_meta_view(items@)))
        } else {
            None
        },
        Response::GetBlob(raw) => if raw@.len() <= u32::MAX {
            Some(get_blob_payload(raw@))
        } else {
            None
        },
    }
}

/// Encodes the payload of an answer: see `response_payload`.
///
/// Fails with `InvalidInput` where a length does not fit its field.
pub fn encode_response(response: &Response) -> (r: Result<Vec<u8>, StoreError>)
    ensures
        match r {
            Ok(payload) => response_payload(*response) == Some(payload@),
            Err(e) => response_payload(*response) is None && e.kind() == ErrorKind::InvalidInput,
        },
{
    match response {
        Response::Hello { session_id, protocol_version } => {
            let mut out: Vec<u8> = Vec::new();
            put_u64_le(&mut out, *session_id);
            put_u16_le(&mut out, *protocol_version);
            assert(out@ =~= response_payload(*response).unwrap());
            Ok(out)
        },
        Response::Context { context_id, head_turn_id, head_depth } => {
            let mut out: Vec<u8> = Vec::new();
            put_u64_le(&mut out, *context_id);
            put_u64_le(&mut out, *head_turn_id);
            put_u32_le(&mut out, *head_depth);
            assert(out@ =~= response_payload(*response).unwrap());
            Ok(out)
        },
        Response::AppendAck { context_id, turn_id, depth, payload_hash } => {
            let mut out: Vec<u8> = Vec::new();
            put_u64_le(&mut out, *context_id);
            put_u64_le(&mut out, *turn_id);
            put_u32_le(&mut out, *depth);
            out.extend_from_slice(payload_hash.as_slice());
            assert(out@ =~= response_payload(*response).unwrap());
            Ok(out)
        },
        Response::PutBlob { hash, was_new } => {
            let mut out: Vec<u8> = Vec::new();
            out.extend_from_slice(hash.as_slice());
            out.push(
                if *was_new {
                    1
                } else {
                    0
                },
            );
            assert(out@ =~= response_payload(*response).unwrap());
            Ok(out)
        },
        Response::GetLast(items) => encode_get_last(items),
        Response::GetBlob(raw) => encode_get_blob(raw.as_slice()),
    }
}

/// The longest detail that goes into an error frame.
pub const MAX_ERROR_DETAIL: usize = 65535;

/// The payload of an error frame: the code, the length of the detail, and
/// the detail. A detail that is longer than 65535 bytes is left out.
pub open spec fn error_payload(kind: ErrorKind, detail: Seq<char>) -> Seq<u8> {
    let text = if encode_utf8(detail).len() <= MAX_ERROR_DETAIL {
        encode_utf8(detail)
    } else {
        Seq::empty()
    };
    spec_u32_to_le_bytes(spec_error_code(kind)) + spec_u32_to_le_bytes(text.len() as u32) + text
}

/// Encodes the payload of the error frame for an error: see `error_payload`.
pub fn encode_error(err: &StoreError) -> (payload: Vec<u8>)
    ensures
        payload@ == error_payload(err.kind(), err.detail()),
        payload@.len() <= 8 + MAX_ERROR_DETAIL,
{
    proof {
        lemma_auto_spec_u32_to_from_le_bytes();
    }
    let (code, detail) = map_error(err);
    let bytes = detail.as_str().as_bytes();
    let mut payload: Vec<u8> = Vec::new();
    put_u32_le(&mut payload, code);
    if bytes.len() <= MAX_ERROR_DETAIL {
        put_u32_le(&mut payload, bytes.len() as u32);
        payload.extend_from_slice(bytes);
    } else {
        put_u32_le(&mut payload, 0);
        assert(payload@ =~= error_payload(err.kind(), err.detail()));
    }
    payload
}

/// The payload of the error frame for an answer that is too long for a
/// frame: the code for invalid input, without a detail.
pub open spec fn too_long_payload() -> Seq<u8> {
    spec_u32_to_le_bytes(422) + spec_u32_to_le_bytes(0)
}

/// The frame that answers a request: of the type of the request with the
/// payload of the answer, or an error frame, each with the id of the
/// request. An answer whose payload does not fit a frame becomes an error
/// frame.
pub open spec fn answer_frame(
    msg_type: u16,
    req_id: u64,
    response: Result<Response, StoreError>,
) -> Seq<u8> {
    match response {
        Ok(r) => match response_payload(r) {
            Some(payload) => if payload.len() <= u32::MAX {
                frame_bytes(msg_type, 0, req_id, payload)
            } else {
                frame_bytes(MSG_ERROR, 0, req_id, too_long_payload())
            },
            None => frame_bytes(MSG_ERROR, 0, req_id, too_long_payload()),
        },
        Err(e) => frame_bytes(MSG_ERROR, 0, req_id, error_payload(e.kind(), e.detail())),
    }
}

/// Writes the frame that answers a request: see `answer_frame`.
pub fn write_answer(msg_type: u16, req_id: u64, response: &Result<Response, StoreError>) -> (frame:
    Vec<u8>)
    ensures
        frame@ == answer_frame(msg_type, req_id, *response),
{
    proof {
        lemma_auto_spec_u32_to_from_le_bytes();
    }
    let mut too_long: Vec<u8> = Vec::new();
    put_u32_le(&mut too_long, 422);
    put_u32_le(&mut too_long, 0);
    let (frame_type, payload) = match response {
        Ok(r) => match encode_response(r) {
            Ok(payload) => {
                if payload.len() <= u32::MAX as usize {
                    (msg_type, payload)
                } else {
                    (MSG_ERROR, too_long)
                }
            },
            Err(_) => (MSG_ERROR, too_long),
        },
        Err(e) => (MSG_ERROR, encode_error(e)),
    };
    match write_frame(frame_type, 0, req_id, payload.as_slice()) {
        Ok(frame) => frame,
        Err(_) => Vec::new(),
    }
}

} // verus!
