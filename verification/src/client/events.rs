//! The events of the stream as a client reads them: numbers may come as
//! numbers or as texts, and a missing field has its default.

use crate::bundle::{get_member, obj_get, opt_json};
use crate::json::{
    element_views, json_document, lemma_json_view, member_views, parse_json, Json, JsonNumber,
    JsonView,
};
use crate::metadata::texts;
use crate::text::{
    parse_i64, parse_u64, spec_parse_i64, spec_parse_u64, trim, trimmed,
};
use vstd::prelude::*;

verus! {

/// A context was created.
#[derive(Debug)]
pub struct ContextCreatedEvent {
    pub context_id: u64,
    pub session_id: String,
    pub client_tag: String,
    pub created_at: i64,
}

/// The metadata of a context were taken from its first turn.
#[derive(Debug)]
pub struct ContextMetadataUpdatedEvent {
    pub context_id: u64,
    pub has_provenance: bool,
    pub client_tag: String,
    pub title: String,
    pub labels: Vec<String>,
}

/// A turn was appended to a context.
#[derive(Debug)]
pub struct TurnAppendedEvent {
    pub context_id: u64,
    pub turn_id: u64,
    pub parent_turn_id: u64,
    pub depth: u32,
    pub declared_type_id: String,
    pub declared_type_version: u32,
    pub has_declared_type_id: bool,
    pub has_declared_type_ver: bool,
}

/// A client of the binary protocol connected.
#[derive(Debug)]
pub struct ClientConnectedEvent {
    pub session_id: String,
    pub client_tag: String,
}

/// A client of the binary protocol disconnected.
#[derive(Debug)]
pub struct ClientDisconnectedEvent {
    pub session_id: String,
    pub client_tag: String,
    pub contexts: Vec<String>,
}

/// What a `ContextCreatedEvent` holds.
pub ghost struct ContextCreatedView {
    pub context_id: u64,
    pub session_id: Seq<char>,
    pub client_tag: Seq<char>,
    pub created_at: i64,
}

/// What a `ContextMetadataUpdatedEvent` holds.
pub ghost struct ContextMetadataUpdatedView {
    pub context_id: u64,
    pub has_provenance: bool,
    pub client_tag: Seq<char>,
    pub title: Seq<char>,
    pub labels: Seq<Seq<char>>,
}

/// What a `TurnAppendedEvent` holds.
pub ghost struct TurnAppendedView {
    pub context_id: u64,
    pub turn_id: u64,
    pub parent_turn_id: u64,
    pub depth: u32,
    pub declared_type_id: Seq<char>,
    pub declared_type_version: u32,
    pub has_declared_type_id: bool,
    pub has_declared_type_ver: bool,
}

/// What a `ClientConnectedEvent` holds.
pub ghost struct ClientConnectedView {
    pub session_id: Seq<char>,
    pub client_tag: Seq<char>,
}

/// What a `ClientDisconnectedEvent` holds.
pub ghost struct ClientDisconnectedView {
    pub session_id: Seq<char>,
    pub client_tag: Seq<char>,
    pub contexts: Seq<Seq<char>>,
}

impl View for ContextCreatedEvent {
    type V = ContextCreatedView;

    open spec fn view(&self) -> ContextCreatedView {
        ContextCreatedView {
            context_id: self.context_id,
            session_id: self.session_id@,
            client_tag: self.client_tag@,
            created_at: self.created_at,
        }
    }
}

impl View for ContextMetadataUpdatedEvent {
    type V = ContextMetadataUpdatedView;

    open spec fn view(&self) -> ContextMetadataUpdatedView {
        ContextMetadataUpdatedView {
            context_id: self.context_id,
            has_provenance: self.has_provenance,
            client_tag: self.client_tag@,
            title: self.title@,
            labels: texts(self.labels@),
        }
    }
}

impl View for TurnAppendedEvent {
    type V = TurnAppendedView;

    open spec fn view(&self) -> TurnAppendedView {
        TurnAppendedView {
            context_id: self.context_id,
            turn_id: self.turn_id,
            parent_turn_id: self.parent_turn_id,
            depth: self.depth,
            declared_type_id: self.declared_type_id@,
            declared_type_version: self.declared_type_version,
            has_declared_type_id: self.has_declared_type_id,
            has_declared_type_ver: self.has_declared_type_ver,
        }
    }
}

impl View for ClientConnectedEvent {
    type V = ClientConnectedView;

    open spec fn view(&self) -> ClientConnectedView {
        ClientConnectedView { session_id: self.session_id@, client_tag: self.client_tag@ }
    }
}

impl View for ClientDisconnectedEvent {
    type V = ClientDisconnectedView;

    open spec fn view(&self) -> ClientDisconnectedView {
        ClientDisconnectedView {
            session_id: self.session_id@,
            client_tag: self.client_tag@,
            contexts: texts(self.contexts@),
        }
    }
}

/// Why the data of an event did not decode.
#[derive(Debug)]
pub struct DecodeError {
    pub message: String,
}

/// The unsigned number that a field holds: 0 where it is missing, null or an
/// empty text; the number where it is a non-negative integer; what a text
/// spells, without the whitespace around it. `None` for anything else.
pub open spec fn sse_u64(v: Option<JsonView>) -> Option<u64> {
    match v {
        None => Some(0),
        Some(JsonView::Null) => Some(0),
        Some(JsonView::Number(JsonNumber::PosInt(n))) => Some(n),
        Some(JsonView::String(s)) => if trimmed(s).len() == 0 {
            Some(0)
        } else {
            spec_parse_u64(trimmed(s))
        },
        _ => None,
    }
}

/// The 32-bit unsigned number that a field holds: as `sse_u64`, and `None`
/// where the number does not fit.
pub open spec fn sse_u32(v: Option<JsonView>) -> Option<u32> {
    match sse_u64(v) {
        Some(n) => if n <= u32::MAX {
            Some(n as u32)
        } else {
            None
        },
        None => None,
    }
}

/// The signed number that a field holds: 0 where it is missing, null or an
/// empty text; the number where it is an integer that fits; what a text
/// spells, without the whitespace around it. `None` for anything else.
pub open spec fn sse_i64(v: Option<JsonView>) -> Option<i64> {
    match v {
        None => Some(0),
        Some(JsonView::Null) => Some(0),
        Some(JsonView::Number(JsonNumber::PosInt(n))) => if n <= i64::MAX as u64 {
            Some(n as i64)
        } else {
            None
        },
        Some(JsonView::Number(JsonNumber::NegInt(i))) => Some(i),
        Some(JsonView::String(s)) => if trimmed(s).len() == 0 {
            Some(0)
        } else {
            spec_parse_i64(trimmed(s))
        },
        _ => None,
    }
}

/// The text that a field holds: empty where it is missing. `None` for
/// anything but a text.
pub open spec fn text_or_empty(v: Option<JsonView>) -> Option<Seq<char>> {
    match v {
        None => Some(Seq::empty()),
        Some(JsonView::String(s)) => Some(s),
        _ => None,
    }
}

/// The text that a field may hold: none where it is missing or null. `None`
/// for anything but a text.
pub open spec fn text_or_none(v: Option<JsonView>) -> Option<Option<Seq<char>>> {
    match v {
        None => Some(None),
        Some(JsonView::Null) => Some(None),
        Some(JsonView::String(s)) => Some(Some(s)),
        _ => None,
    }
}

/// The boolean that a field holds: false where it is missing. `None` for
/// anything but a boolean.
pub open spec fn bool_or_false(v: Option<JsonView>) -> Option<bool> {
    match v {
        None => Some(false),
        Some(JsonView::Bool(b)) => Some(b),
        _ => None,
    }
}

/// The texts of a list of JSON values, where they all are texts.
pub open spec fn all_texts(items: Seq<JsonView>) -> Option<Seq<Seq<char>>>
    decreases items.len(),
{
    if items.len() == 0 {
        Some(Seq::empty())
    } else {
        match (all_texts(items.drop_last()), items.last()) {
            (Some(front), JsonView::String(s)) => Some(front.push(s)),
            _ => None,
        }
    }
}

/// Where one item is no text, the list gives no texts.
pub proof fn lemma_all_texts_none(items: Seq<JsonView>, i: int)
    requires
        0 <= i < items.len(),
        !(items[i] is String),
    ensures
        all_texts(items) is None,
    decreases items.len(),
{
    if i < items.len() - 1 {
        lemma_all_texts_none(items.drop_last(), i);
    }
}

/// The texts that a field holds: none where it is missing. `None` for
/// anything but an array of texts.
pub open spec fn texts_or_empty(v: Option<JsonView>) -> Option<Seq<Seq<char>>> {
    match v {
        None => Some(Seq::empty()),
        Some(JsonView::Array(items)) => all_texts(items),
        _ => None,
    }
}

/// The members of the JSON object that the data of an event hold.
pub open spec fn event_object(data: Seq<u8>) -> Option<Seq<(Seq<char>, JsonView)>> {
    match json_document(data) {
        Some(JsonView::Object(m)) => Some(m),
        _ => None,
    }
}

/// The event that the data of a `context_created` event hold.
pub open spec fn spec_decode_context_created(data: Seq<u8>) -> Option<ContextCreatedView> {
    match event_object(data) {
        Some(m) => match (
            sse_u64(obj_get(m, "context_id"@)),
            text_or_empty(obj_get(m, "session_id"@)),
            text_or_empty(obj_get(m, "client_tag"@)),
            sse_i64(obj_get(m, "created_at"@)),
        ) {
            (Some(context_id), Some(session_id), Some(client_tag), Some(created_at)) => Some(
                ContextCreatedView { context_id, session_id, client_tag, created_at },
            ),
            _ => None,
        },
        None => None,
    }
}

/// The event that the data of a `context_metadata_updated` event hold.
pub open spec fn spec_decode_context_metadata_updated(data: Seq<u8>) -> Option<
    ContextMetadataUpdatedView,
> {
    match event_object(data) {
        Some(m) => match (
            sse_u64(obj_get(m, "context_id"@)),
            bool_or_false(obj_get(m, "has_provenance"@)),
            text_or_empty(obj_get(m, "client_tag"@)),
            text_or_empty(obj_get(m, "title"@)),
            texts_or_empty(obj_get(m, "labels"@)),
        ) {
            (Some(context_id), Some(has_provenance), Some(client_tag), Some(title), Some(labels)) => {
                Some(
                    ContextMetadataUpdatedView {
                        context_id,
                        has_provenance,
                        client_tag,
                        title,
                        labels,
                    },
                )
            },
            _ => None,
        },
        None => None,
    }
}

/// The declared type version that a field may hold: none where it is missing
/// or null.
pub open spec fn version_or_none(v: Option<JsonView>) -> Option<Option<u32>> {
    match v {
        None => Some(None),
        Some(JsonView::Null) => Some(None),
        Some(_) => match sse_u32(v) {
            Some(n) => Some(Some(n)),
            None => None,
        },
    }
}

/// The event that the data of a `turn_appended` event hold.
pub open spec fn spec_decode_turn_appended(data: Seq<u8>) -> Option<TurnAppendedView> {
    match event_object(data) {
        Some(m) => match (
            sse_u64(obj_get(m, "context_id"@)),
            sse_u64(obj_get(m, "turn_id"@)),
            sse_u64(obj_get(m, "parent_turn_id"@)),
            sse_u32(obj_get(m, "depth"@)),
            text_or_none(obj_get(m, "declared_type_id"@)),
            version_or_none(obj_get(m, "declared_type_version"@)),
        ) {
            (
                Some(context_id),
                Some(turn_id),
                Some(parent_turn_id),
                Some(depth),
                Some(type_id),
                Some(version),
            ) => Some(
                TurnAppendedView {
                    context_id,
                    turn_id,
                    parent_turn_id,
                    depth,
                    declared_type_id: match type_id {
                        Some(s) => s,
                        None => Seq::empty(),
                    },
                    declared_type_version: match version {
                        Some(n) => n,
                        None => 0,
                    },
                    has_declared_type_id: match type_id {
                        Some(s) => s.len() > 0,
                        None => false,
                    },
                    has_declared_type_ver: version is Some,
                },
            ),
            _ => None,
        },
        None => None,
    }
}

/// The event that the data of a `client_connected` event hold.
pub open spec fn spec_decode_client_connected(data: Seq<u8>) -> Option<ClientConnectedView> {
    match event_object(data) {
        Some(m) => match (
            text_or_empty(obj_get(m, "session_id"@)),
            text_or_empty(obj_get(m, "client_tag"@)),
        ) {
            (Some(session_id), Some(client_tag)) => Some(
                ClientConnectedView { session_id, client_tag },
            ),
            _ => None,
        },
        None => None,
    }
}

/// The event that the data of a `client_disconnected` event hold.
pub open spec fn spec_decode_client_disconnected(data: Seq<u8>) -> Option<ClientDisconnectedView> {
    match event_object(data) {
        Some(m) => match (
            text_or_empty(obj_get(m, "session_id"@)),
            text_or_empty(obj_get(m, "client_tag"@)),
            texts_or_empty(obj_get(m, "contexts"@)),
        ) {
            (Some(session_id), Some(client_tag), Some(contexts)) => Some(
                ClientDisconnectedView { session_id, client_tag, contexts },
            ),
            _ => None,
        },
        None => None,
    }
}

fn read_u64(v: Option<&Json>) -> (r: Option<u64>)
    ensures
        r == sse_u64(opt_json(v)),
{
    match v {
        None => Some(0),
        Some(Json::Null) => Some(0),
        Some(Json::Number(JsonNumber::PosInt(n))) => Some(*n),
        Some(Json::String(s)) => {
            let t = trim(s.as_str());
            if t.is_empty() {
                Some(0)
            } else {
                parse_u64(t)
            }
        },
        _ => None,
    }
}

fn read_u32(v: Option<&Json>) -> (r: Option<u32>)
    ensures
        r == sse_u32(opt_json(v)),
{
    match read_u64(v) {
        Some(n) => if n <= u32::MAX as u64 {
            Some(n as u32)
        } else {
            None
        },
        None => None,
    }
}

fn read_i64(v: Option<&Json>) -> (r: Option<i64>)
    ensures
        r == sse_i64(opt_json(v)),
{
    match v {
        None => Some(0),
        Some(Json::Null) => Some(0),
        Some(Json::Number(JsonNumber::PosInt(n))) => if *n <= i64::MAX as u64 {
            Some(*n as i64)
        } else {
            None
        },
        Some(Json::Number(JsonNumber::NegInt(i))) => Some(*i),
        Some(Json::String(s)) => {
            let t = trim(s.as_str());
            if t.is_empty() {
                Some(0)
            } else {
                parse_i64(t)
            }
        },
        _ => None,
    }
}

fn read_text(v: Option<&Json>) -> (r: Option<String>)
    ensures
        crate::text::opt_text(r) == text_or_empty(opt_json(v)),
{
    match v {
        None => Some(String::new()),
        Some(Json::String(s)) => Some(s.clone()),
        _ => None,
    }
}

fn read_opt_text(v: Option<&Json>) -> (r: Option<Option<String>>)
    ensures
        match r {
            Some(t) => text_or_none(opt_json(v)) == Some(crate::text::opt_text(t)),
            None => text_or_none(opt_json(v)) is None,
        },
{
    match v {
        None => Some(None),
        Some(Json::Null) => Some(None),
        Some(Json::String(s)) => Some(Some(s.clone())),
        _ => None,
    }
}

fn read_bool(v: Option<&Json>) -> (r: Option<bool>)
    ensures
        r == bool_or_false(opt_json(v)),
{
    match v {
        None => Some(false),
        Some(Json::Bool(b)) => Some(*b),
        _ => None,
    }
}

fn read_version(v: Option<&Json>) -> (r: Option<Option<u32>>)
    ensures
        r == version_or_none(opt_json(v)),
{
    match v {
        None => Some(None),
        Some(Json::Null) => Some(None),
        Some(_) => match read_u32(v) {
            Some(n) => Some(Some(n)),
            None => None,
        },
    }
}

fn read_texts(v: Option<&Json>) -> (r: Option<Vec<String>>)
    ensures
        match r {
            Some(list) => texts_or_empty(opt_json(v)) == Some(texts(list@)),
            None => texts_or_empty(opt_json(v)) is None,
        },
{
    match v {
        None => {
            let none: Vec<String> = Vec::new();
            assert(texts(none@) =~= Seq::empty());
            Some(none)
        },
        Some(Json::Array(items)) => {
            proof {
                lemma_json_view(v.unwrap());
            }
            let ghost all = element_views(items@);
            let mut out: Vec<String> = Vec::with_capacity(items.len());
            let mut i: usize = 0;
            assert(all.take(0) =~= Seq::empty());
            assert(texts(out@) =~= Seq::empty());
            while i < items.len()
                invariant
                    i <= items.len(),
                    all == element_views(items@),
                    opt_json(v) == Some(JsonView::Array(all)),
                    all_texts(all.take(i as int)) == Some(texts(out@)),
                decreases items.len() - i,
            {
                assert(all.take(i + 1).drop_last() =~= all.take(i as int));
                let ghost before = texts(out@);
                match &items[i] {
                    Json::String(s) => {
                        out.push(s.clone());
                        assert(texts(out@) =~= before.push(s@));
                    },
                    _ => {
                        proof {
                            lemma_all_texts_none(all, i as int);
                        }
                        return None;
                    },
                }
                i += 1;
            }
            assert(all.take(i as int) =~= all);
            Some(out)
        },
        _ => None,
    }
}

/// Parses the data of an event as a JSON object.
fn parse_event_object(data: &[u8]) -> (r: Result<Vec<(String, Json)>, DecodeError>)
    ensures
        match r {
            Ok(m) => event_object(data@) == Some(member_views(m@)),
            Err(_) => event_object(data@) is None,
        },
{
    match parse_json(data) {
        Ok(doc) => {
            proof {
                lemma_json_view(&doc);
            }
            match doc {
                Json::Object(m) => Ok(m),
                _ => Err(DecodeError { message: "expected a JSON object".to_string() }),
            }
        },
        Err(message) => Err(DecodeError { message }),
    }
}

/// The error for a field that holds what its type does not take.
fn invalid_field() -> (e: DecodeError)
    ensures
        e.message@ == "invalid field"@,
{
    DecodeError { message: "invalid field".to_string() }
}

/// Decodes the data of a `context_created` event.
pub fn decode_context_created(data: &[u8]) -> (r: Result<ContextCreatedEvent, DecodeError>)
    ensures
        match r {
            Ok(e) => spec_decode_context_created(data@) == Some(e@),
            Err(_) => spec_decode_context_created(data@) is None,
        },
{
    let m = match parse_event_object(data) {
        Ok(m) => m,
        Err(e) => {
            return Err(e);
        },
    };
    match (
        read_u64(get_member(&m, "context_id")),
        read_text(get_member(&m, "session_id")),
        read_text(get_member(&m, "client_tag")),
        read_i64(get_member(&m, "created_at")),
    ) {
        (Some(context_id), Some(session_id), Some(client_tag), Some(created_at)) => Ok(
            ContextCreatedEvent { context_id, session_id, client_tag, created_at },
        ),
        _ => Err(invalid_field()),
    }
}

/// Decodes the data of a `context_metadata_updated` event.
pub fn decode_context_metadata_updated(data: &[u8]) -> (r: Result<
    ContextMetadataUpdatedEvent,
    DecodeError,
>)
    ensures
        match r {
            Ok(e) => spec_decode_context_metadata_updated(data@) == Some(e@),
            Err(_) => spec_decode_context_metadata_updated(data@) is None,
        },
{
    let m = match parse_event_object(data) {
        Ok(m) => m,
        Err(e) => {
            return Err(e);
        },
    };
    match (
        read_u64(get_member(&m, "context_id")),
        read_bool(get_member(&m, "has_provenance")),
        read_text(get_member(&m, "client_tag")),
        read_text(get_member(&m, "title")),
        read_texts(get_member(&m, "labels")),
    ) {
        (Some(context_id), Some(has_provenance), Some(client_tag), Some(title), Some(labels)) => Ok(
            ContextMetadataUpdatedEvent { context_id, has_provenance, client_tag, title, labels },
        ),
        _ => Err(invalid_field()),
    }
}

/// Decodes the data of a `turn_appended` event.
pub fn decode_turn_appended(data: &[u8]) -> (r: Result<TurnAppendedEvent, DecodeError>)
    ensures
        match r {
            Ok(e) => spec_decode_turn_appended(data@) == Some(e@),
            Err(_) => spec_decode_turn_appended(data@) is None,
        },
{
    let m = match parse_event_object(data) {
        Ok(m) => m,
        Err(e) => {
            return Err(e);
        },
    };
    match (
        read_u64(get_member(&m, "context_id")),
        read_u64(get_member(&m, "turn_id")),
        read_u64(get_member(&m, "parent_turn_id")),
        read_u32(get_member(&m, "depth")),
        read_opt_text(get_member(&m, "declared_type_id")),
        read_version(get_member(&m, "declared_type_version")),
    ) {
        (
            Some(context_id),
            Some(turn_id),
            Some(parent_turn_id),
            Some(depth),
            Some(type_id),
            Some(version),
        ) => {
            let declared_type_id = match type_id {
                Some(s) => s,
                None => String::new(),
            };
            let has_declared_type_id = !declared_type_id.as_str().is_empty();
            let (declared_type_version, has_declared_type_ver) = match version {
                Some(n) => (n, true),
                None => (0, false),
            };
            Ok(
                TurnAppendedEvent {
                    context_id,
                    turn_id,
                    parent_turn_id,
                    depth,
                    declared_type_id,
                    declared_type_version,
                    has_declared_type_id,
                    has_declared_type_ver,
                },
            )
        },
        _ => Err(invalid_field()),
    }
}

/// Decodes the data of a `client_connected` event.
pub fn decode_client_connected(data: &[u8]) -> (r: Result<ClientConnectedEvent, DecodeError>)
    ensures
        match r {
            Ok(e) => spec_decode_client_connected(data@) == Some(e@),
            Err(_) => spec_decode_client_connected(data@) is None,
        },
{
    let m = match parse_event_object(data) {
        Ok(m) => m,
        Err(e) => {
            return Err(e);
        },
    };
    match (read_text(get_member(&m, "session_id")), read_text(get_member(&m, "client_tag"))) {
        (Some(session_id), Some(client_tag)) => Ok(ClientConnectedEvent { session_id, client_tag }),
        _ => Err(invalid_field()),
    }
}

/// Decodes the data of a `client_disconnected` event.
pub fn decode_client_disconnected(data: &[u8]) -> (r: Result<ClientDisconnectedEvent, DecodeError>)
    ensures
        match r {
            Ok(e) => spec_decode_client_disconnected(data@) == Some(e@),
            Err(_) => spec_decode_client_disconnected(data@) is None,
        },
{
    let m = match parse_event_object(data) {
        Ok(m) => m,
        Err(e) => {
            return Err(e);
        },
    };
    match (
        read_text(get_member(&m, "session_id")),
        read_text(get_member(&m, "client_tag")),
        read_texts(get_member(&m, "contexts")),
    ) {
        (Some(session_id), Some(client_tag), Some(contexts)) => Ok(
            ClientDisconnectedEvent { session_id, client_tag, contexts },
        ),
        _ => Err(invalid_field()),
    }
}

} // verus!
