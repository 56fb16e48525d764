//! The client side of the event stream: the events it carries, the errors
//! that end it, the decoder of its lines, and the retry policy.

use crate::text::{concat3, trim, trimmed, u64_to_string};
use crate::text::bytes_eq;
use crate::wire::{is_utf8, slice_to_vec, string_from_utf8};
use vstd::prelude::*;
use vstd::slice::slice_subrange;
use vstd::utf8::{decode_utf8, valid_utf8};

verus! {

/// An event of the stream.
#[derive(Debug)]
pub struct Event {
    pub event_type: String,
    pub data: Vec<u8>,
    pub id: String,
}

/// What an `Event` holds.
pub ghost struct EventView {
    pub event_type: Seq<char>,
    pub data: Seq<u8>,
    pub id: Seq<char>,
}

impl View for Event {
    type V = EventView;

    open spec fn view(&self) -> EventView {
        EventView { event_type: self.event_type@, data: self.data@, id: self.id@ }
    }
}

impl Clone for Event {
    fn clone(&self) -> (copy: Self)
        ensures
            copy@ == self@,
    {
        Event {
            event_type: self.event_type.clone(),
            data: self.data.clone(),
            id: self.id.clone(),
        }
    }
}

/// Why a subscription ended.
#[derive(Debug, Clone, Copy, PartialEq, Eq, Structural)]
pub enum SubscribeErrorKind {
    Cancelled,
    Timeout,
    Eof,
    Other,
}

/// The error that ends a subscription: its kind and a detail text.
#[derive(Debug)]
pub struct SubscribeError {
    kind: SubscribeErrorKind,
    detail: String,
}

impl SubscribeError {
    /// The kind of the error.
    pub closed spec fn kind(&self) -> SubscribeErrorKind {
        self.kind
    }

    /// The detail text of the error.
    pub closed spec fn detail(&self) -> Seq<char> {
        self.detail@
    }

    /// The request was cancelled.
    pub fn cancelled() -> (e: SubscribeError)
        ensures
            e.kind() == SubscribeErrorKind::Cancelled,
            e.detail() == "context canceled"@,
    {
        SubscribeError { kind: SubscribeErrorKind::Cancelled, detail: "context canceled".to_string() }
    }

    /// The deadline of the request passed.
    pub fn timeout() -> (e: SubscribeError)
        ensures
            e.kind() == SubscribeErrorKind::Timeout,
            e.detail() == "context deadline exceeded"@,
    {
        SubscribeError {
            kind: SubscribeErrorKind::Timeout,
            detail: "context deadline exceeded".to_string(),
        }
    }

    /// The stream came to its end.
    pub fn eof() -> (e: SubscribeError)
        ensures
            e.kind() == SubscribeErrorKind::Eof,
            e.detail() == "cxdb subscribe: stream closed"@,
    {
        SubscribeError {
            kind: SubscribeErrorKind::Eof,
            detail: "cxdb subscribe: stream closed".to_string(),
        }
    }

    /// Another failure, with its detail.
    pub fn other(detail: String) -> (e: SubscribeError)
        ensures
            e.kind() == SubscribeErrorKind::Other,
            e.detail() == detail@,
    {
        SubscribeError { kind: SubscribeErrorKind::Other, detail }
    }

    /// Whether the request was cancelled.
    pub fn is_cancelled(&self) -> (b: bool)
        ensures
            b == (self.kind() == SubscribeErrorKind::Cancelled),
    {
        self.kind == SubscribeErrorKind::Cancelled
    }

    /// Whether the deadline of the request passed.
    pub fn is_timeout(&self) -> (b: bool)
        ensures
            b == (self.kind() == SubscribeErrorKind::Timeout),
    {
        self.kind == SubscribeErrorKind::Timeout
    }

    /// Whether the stream came to its end.
    pub fn is_eof(&self) -> (b: bool)
        ensures
            b == (self.kind() == SubscribeErrorKind::Eof),
    {
        self.kind == SubscribeErrorKind::Eof
    }

    /// The detail text.
    pub fn message(&self) -> (text: String)
        ensures
            text@ == self.detail(),
    {
        self.detail.clone()
    }
}

impl Clone for SubscribeError {
    fn clone(&self) -> (copy: Self)
        ensures
            copy.kind() == self.kind(),
            copy.detail() == self.detail(),
    {
        SubscribeError { kind: self.kind, detail: self.detail.clone() }
    }
}

/// The largest data of an event, where no other is set: 2 MiB.
pub const DEFAULT_MAX_EVENT_BYTES: usize = 2097152;

/// The first delay before a retry, in milliseconds, where no other is set.
pub const DEFAULT_RETRY_DELAY_MS: u64 = 500;

/// The largest delay before a retry, in milliseconds, where no other is set.
pub const DEFAULT_MAX_RETRY_DELAY_MS: u64 = 10000;

/// The delay before the retry after next, in milliseconds: the default
/// where the delay is 0, else twice the delay, and no more than the maximum
/// where one is set.
pub open spec fn spec_next_retry_delay(current_ms: u64, max_ms: u64) -> u64 {
    if current_ms == 0 {
        DEFAULT_RETRY_DELAY_MS
    } else {
        let next = if current_ms > u64::MAX / 2 {
            u64::MAX
        } else {
            (current_ms * 2) as u64
        };
        if max_ms > 0 && next > max_ms {
            max_ms
        } else {
            next
        }
    }
}

/// The delay before the retry after next: see `spec_next_retry_delay`.
pub fn next_retry_delay(current_ms: u64, max_ms: u64) -> (next_ms: u64)
    ensures
        next_ms == spec_next_retry_delay(current_ms, max_ms),
{
    if current_ms == 0 {
        return DEFAULT_RETRY_DELAY_MS;
    }
    let next = if current_ms > u64::MAX / 2 {
        u64::MAX
    } else {
        current_ms * 2
    };
    if max_ms > 0 && next > max_ms {
        return max_ms;
    }
    next
}

/// What the decoder has gathered of the event that is being read.
pub ghost struct DecoderView {
    /// The type of the event, empty where none was named.
    pub event_type: Seq<u8>,
    /// The data lines, joined by newlines.
    pub data: Seq<u8>,
    /// Whether a data line was read.
    pub has_data: bool,
    /// The bytes of the data lines, without the newlines between them.
    pub data_size: nat,
    /// The id of the event, empty where none was given.
    pub last_id: Seq<u8>,
}

/// What a decoder holds.
pub ghost struct EventStreamDecoderView {
    /// What it has gathered of the event that is being read.
    pub gathered: DecoderView,
    /// The largest size of the data of an event, or 0 where any size is
    /// allowed.
    pub max_event_bytes: usize,
}

/// The decoder of the lines of an event stream.
pub struct EventStreamDecoder {
    event_type: Vec<u8>,
    data: Vec<u8>,
    has_data: bool,
    data_size: usize,
    last_id: Vec<u8>,
    max_event_bytes: usize,
}

/// A decoder that has gathered nothing.
pub open spec fn empty_decoder() -> DecoderView {
    DecoderView {
        event_type: Seq::empty(),
        data: Seq::empty(),
        has_data: false,
        data_size: 0,
        last_id: Seq::empty(),
    }
}

/// The line without the carriage returns and newlines at its end.
pub open spec fn trim_line_end(line: Seq<u8>) -> Seq<u8>
    decreases line.len(),
{
    if line.len() > 0 && (line.last() == 0x0a || line.last() == 0x0d) {
        trim_line_end(line.drop_last())
    } else {
        line
    }
}

/// The place of the first colon of a line, or its length where it has none.
pub open spec fn colon_index(line: Seq<u8>) -> int
    decreases line.len(),
{
    if line.len() == 0 {
        0
    } else if line[0] == 0x3a {
        0
    } else {
        1 + colon_index(line.drop_first())
    }
}

/// The name of the field of a line: what stands before the first colon.
pub open spec fn field_name(line: Seq<u8>) -> Seq<u8> {
    line.subrange(0, colon_index(line))
}

/// The value of the field of a line: what stands behind the first colon,
/// without one leading space.
pub open spec fn field_value(line: Seq<u8>) -> Seq<u8> {
    let c = colon_index(line);
    if c >= line.len() {
        Seq::empty()
    } else if c + 1 < line.len() && line[c + 1] == 0x20 {
        line.subrange(c + 2, line.len() as int)
    } else {
        line.subrange(c + 1, line.len() as int)
    }
}

/// Whether a field name is malformed: empty, or with a space or a tab in it.
pub open spec fn malformed_field(name: Seq<u8>) -> bool {
    name.len() == 0 || name.contains(0x20) || name.contains(0x09)
}

/// The bytes of the field name `event`.
pub open spec fn event_field() -> Seq<u8> {
    seq![0x65u8, 0x76u8, 0x65u8, 0x6eu8, 0x74u8]
}

/// The bytes of the field name `data`.
pub open spec fn data_field() -> Seq<u8> {
    seq![0x64u8, 0x61u8, 0x74u8, 0x61u8]
}

/// The bytes of the field name `id`.
pub open spec fn id_field() -> Seq<u8> {
    seq![0x69u8, 0x64u8]
}

/// The decoder after a field was taken in: `event` names the type, `data`
/// adds a data line, `id` gives the id; any other field changes nothing.
pub open spec fn with_field(d: DecoderView, name: Seq<u8>, value: Seq<u8>) -> DecoderView {
    if name == event_field() {
        DecoderView { event_type: value, ..d }
    } else if name == data_field() {
        DecoderView {
            data: if d.has_data {
                d.data.push(0x0a) + value
            } else {
                d.data + value
            },
            has_data: true,
            data_size: d.data_size + value.len(),
            ..d
        }
    } else if name == id_field() {
        DecoderView { last_id: value, ..d }
    } else {
        d
    }
}

/// What flushing a decoder emits: nothing where it has no data; else the
/// event, of type `message` where none was named, or the failure to read its
/// type or id as text.
pub enum Flushed {
    /// Nothing is emitted.
    Nothing,
    /// The event is emitted.
    Emitted(EventView),
    /// The type or the id is no text.
    Unreadable,
}

/// What flushing a decoder emits.
pub open spec fn flushed(d: DecoderView) -> Flushed {
    if d.data.len() == 0 {
        Flushed::Nothing
    } else if !valid_utf8(d.event_type) || !valid_utf8(d.last_id) {
        Flushed::Unreadable
    } else {
        Flushed::Emitted(
            EventView {
                event_type: if d.event_type.len() == 0 {
                    "message"@
                } else {
                    decode_utf8(d.event_type)
                },
                data: d.data,
                id: decode_utf8(d.last_id),
            },
        )
    }
}

/// How the reading of a line ends.
pub enum LineEnd {
    /// The stream goes on.
    GoOn,
    /// The stream has come to its end.
    Eof,
    /// The line is no text.
    Unreadable,
    /// The line names a malformed field.
    Malformed,
    /// The data of the event are larger than allowed.
    TooLarge,
}

/// What the reading of a line gives: the decoder after it, the event that
/// is emitted, if any, and how it ends.
pub ghost struct LineStep {
    pub decoder: DecoderView,
    pub event: Option<EventView>,
    pub end: LineEnd,
}

/// The end of a line after which the stream goes on, unless the line was
/// the last.
pub open spec fn end_of(eof: bool) -> LineEnd {
    if eof {
        LineEnd::Eof
    } else {
        LineEnd::GoOn
    }
}

/// The flush of a decoder at the end of an event or of the stream.
pub open spec fn flush_step(d: DecoderView, eof: bool) -> LineStep {
    match flushed(d) {
        Flushed::Nothing => LineStep { decoder: empty_decoder(), event: None, end: end_of(eof) },
        Flushed::Emitted(e) => LineStep {
            decoder: empty_decoder(),
            event: Some(e),
            end: end_of(eof),
        },
        Flushed::Unreadable => LineStep { decoder: d, event: None, end: LineEnd::Unreadable },
    }
}

/// Reads one line, as it came with its newline, or without one where it is
/// the last of the stream.
///
/// A blank line flushes the event. A line that starts with a colon is a
/// comment. Any other line is a field; the last line of the stream flushes
/// the event behind its field.
pub open spec fn read_line(d: DecoderView, line: Seq<u8>, max_event_bytes: usize) -> LineStep {
    let eof = line.len() == 0 || line.last() != 0x0a;
    let text = trim_line_end(line);
    if !valid_utf8(line) {
        LineStep { decoder: d, event: None, end: LineEnd::Unreadable }
    } else if text.len() == 0 {
        flush_step(d, eof)
    } else if text[0] == 0x3a {
        LineStep { decoder: d, event: None, end: end_of(eof) }
    } else if malformed_field(field_name(text)) {
        LineStep { decoder: d, event: None, end: LineEnd::Malformed }
    } else {
        let next = with_field(d, field_name(text), field_value(text));
        if max_event_bytes > 0 && next.data_size > max_event_bytes {
            LineStep { decoder: next, event: None, end: LineEnd::TooLarge }
        } else if eof {
            flush_step(next, true)
        } else {
            LineStep { decoder: next, event: None, end: LineEnd::GoOn }
        }
    }
}

/// A last line that is a well-formed field within the size allowed flushes
/// the event it belongs to before the end of the stream is reported.
pub proof fn lemma_last_line_flushes(d: DecoderView, line: Seq<u8>, max_event_bytes: usize)
    requires
        line.len() > 0,
        line.last() != 0x0a,
        valid_utf8(line),
        trim_line_end(line).len() > 0,
        trim_line_end(line)[0] != 0x3a,
        !malformed_field(field_name(trim_line_end(line))),
        max_event_bytes == 0 || with_field(
            d,
            field_name(trim_line_end(line)),
            field_value(trim_line_end(line)),
        ).data_size <= max_event_bytes,
    ensures
        read_line(d, line, max_event_bytes) == flush_step(
            with_field(d, field_name(trim_line_end(line)), field_value(trim_line_end(line))),
            true,
        ),
        flushed(
            with_field(d, field_name(trim_line_end(line)), field_value(trim_line_end(line))),
        ) is Emitted ==> read_line(d, line, max_event_bytes).event is Some && read_line(
            d,
            line,
            max_event_bytes,
        ).end is Eof,
{
}

/// The length of a line without the carriage returns and newlines at its
/// end.
fn trimmed_len(line: &[u8]) -> (n: usize)
    ensures
        n <= line.len(),
        line@.subrange(0, n as int) == trim_line_end(line@),
{
    let mut n: usize = line.len();
    assert(line@.subrange(0, n as int) =~= line@);
    while n > 0 && (line[n - 1] == 0x0a || line[n - 1] == 0x0d)
        invariant
            n <= line.len(),
            trim_line_end(line@.subrange(0, n as int)) == trim_line_end(line@),
        decreases n,
    {
        assert(line@.subrange(0, n as int).drop_last() =~= line@.subrange(0, n - 1));
        n -= 1;
    }
    n
}

/// The place of the first colon of a line, or its length where it has none.
fn find_colon(line: &[u8]) -> (c: usize)
    ensures
        c == colon_index(line@),
        c <= line.len(),
{
    let mut i: usize = 0;
    assert(line@.skip(0) =~= line@);
    while i < line.len() && line[i] != 0x3a
        invariant
            i <= line.len(),
            colon_index(line@) == i + colon_index(line@.skip(i as int)),
        decreases line.len() - i,
    {
        assert(line@.skip(i as int).drop_first() =~= line@.skip(i + 1));
        i += 1;
    }
    i
}

/// Whether a field name is malformed.
fn is_malformed(name: &[u8]) -> (bad: bool)
    ensures
        bad == malformed_field(name@),
{
    if name.len() == 0 {
        return true;
    }
    let mut i: usize = 0;
    while i < name.len()
        invariant
            i <= name.len(),
            forall|j: int| 0 <= j < i ==> name@[j] != 0x20 && name@[j] != 0x09,
        decreases name.len() - i,
    {
        if name[i] == 0x20 || name[i] == 0x09 {
            return true;
        }
        i += 1;
    }
    false
}

/// The text of a field name as it is shown in an error.
#[verifier::external_body]
fn lossy_text(bytes: &[u8]) -> String {
    String::from_utf8_lossy(bytes).into_owned()
}

impl EventStreamDecoder {
    /// What the decoder holds: what it has gathered, and the largest size
    /// of the data of an event.
    pub open spec fn view(&self) -> EventStreamDecoderView {
        EventStreamDecoderView {
            gathered: self.gathered(),
            max_event_bytes: self.max_event_bytes(),
        }
    }

    /// What the decoder has gathered.
    pub closed spec fn gathered(&self) -> DecoderView {
        DecoderView {
            event_type: self.event_type@,
            data: self.data@,
            has_data: self.has_data,
            data_size: self.data_size as nat,
            last_id: self.last_id@,
        }
    }

    /// The largest size of the data of an event, or 0 where any size is
    /// allowed.
    pub closed spec fn max_event_bytes(&self) -> usize {
        self.max_event_bytes
    }

    /// Whether the data are as long as their lines, at least.
    pub closed spec fn wf(&self) -> bool {
        self.data_size <= self.data@.len()
    }

    /// A decoder that has gathered nothing.
    pub fn new(max_event_bytes: usize) -> (d: EventStreamDecoder)
        ensures
            d.wf(),
            d.gathered() == empty_decoder(),
            d.max_event_bytes() == max_event_bytes,
    {
        EventStreamDecoder {
            event_type: Vec::new(),
            data: Vec::new(),
            has_data: false,
            data_size: 0,
            last_id: Vec::new(),
            max_event_bytes,
        }
    }

    /// Forgets what was gathered.
    pub fn reset_state(&mut self)
        ensures
            final(self).wf(),
            final(self).gathered() == empty_decoder(),
            final(self).max_event_bytes() == old(self).max_event_bytes(),
    {
        self.event_type.clear();
        self.data.clear();
        self.has_data = false;
        self.data_size = 0;
        self.last_id.clear();
    }

    /// Flushes what was gathered: see `flushed`.
    pub fn flush_event(&mut self) -> (r: Result<Option<Event>, SubscribeError>)
        requires
            old(self).wf(),
        ensures
            final(self).wf(),
            final(self).max_event_bytes() == old(self).max_event_bytes(),
            match flushed(old(self).gathered()) {
                Flushed::Nothing => r is Ok && r.unwrap() is None && final(self).gathered()
                    == empty_decoder(),
                Flushed::Emitted(e) => r is Ok && r.unwrap() is Some && r.unwrap().unwrap()@ == e
                    && final(self).gathered() == empty_decoder(),
                Flushed::Unreadable => r is Err && r.unwrap_err().kind()
                    == SubscribeErrorKind::Other && final(self).gathered() == old(self).gathered(),
            },
    {
        if self.data.len() == 0 {
            self.reset_state();
            return Ok(None);
        }
        let event_type = if self.event_type.len() == 0 {
            if !is_utf8(self.last_id.as_slice()) {
                return Err(SubscribeError::other("cxdb subscribe: read error".to_string()));
            }
            proof {
                assert(valid_utf8(Seq::<u8>::empty())) by {
                    reveal_with_fuel(valid_utf8, 1);
                }
            }
            "message".to_string()
        } else {
            match string_from_utf8(self.event_type.clone()) {
                Some(t) => t,
                None => {
                    return Err(SubscribeError::other("cxdb subscribe: read error".to_string()));
                },
            }
        };
        let id = match string_from_utf8(self.last_id.clone()) {
            Some(t) => t,
            None => {
                return Err(SubscribeError::other("cxdb subscribe: read error".to_string()));
            },
        };
        let event = Event { event_type, data: self.data.clone(), id };
        self.reset_state();
        Ok(Some(event))
    }

    /// Takes a field into what is gathered: see `with_field`.
    fn take_field(&mut self, name: &[u8], value: &[u8])
        requires
            old(self).wf(),
        ensures
            final(self).wf(),
            final(self).max_event_bytes() == old(self).max_event_bytes(),
            final(self).gathered() == with_field(old(self).gathered(), name@, value@),
    {
        let event_name: [u8; 5] = [0x65, 0x76, 0x65, 0x6e, 0x74];
        let data_name: [u8; 4] = [0x64, 0x61, 0x74, 0x61];
        let id_name: [u8; 2] = [0x69, 0x64];
        assert(event_name@ =~= event_field());
        assert(data_name@ =~= data_field());
        assert(id_name@ =~= id_field());
        if bytes_eq(name, event_name.as_slice()) {
            self.event_type = slice_to_vec(value);
        } else if bytes_eq(name, data_name.as_slice()) {
            if self.has_data {
                self.data.push(0x0a);
            }
            self.data.extend_from_slice(value);
            let n = self.data.len();
            self.has_data = true;
            self.data_size = self.data_size + value.len();
            assert(self.data@ =~= with_field(old(self).gathered(), name@, value@).data);
        } else if bytes_eq(name, id_name.as_slice()) {
            self.last_id = slice_to_vec(value);
        }
    }
}

/// What the reading of a line gave: the event that was emitted, if any, and
/// the error that ends the stream, if it ends.
#[derive(Debug)]
pub struct LineResult {
    pub event: Option<Event>,
    pub error: Option<SubscribeError>,
}

/// The view of an optional event.
pub open spec fn opt_event(e: Option<Event>) -> Option<EventView> {
    match e {
        Some(event) => Some(event@),
        None => None,
    }
}

/// Whether an error is the one that an end of a line calls for: none where
/// the stream goes on, `Eof` at its end, and `Other` for a failure.
pub open spec fn error_for(end: LineEnd, error: Option<SubscribeError>) -> bool {
    match end {
        LineEnd::GoOn => error is None,
        LineEnd::Eof => error is Some && error.unwrap().kind() == SubscribeErrorKind::Eof,
        _ => error is Some && error.unwrap().kind() == SubscribeErrorKind::Other,
    }
}

impl EventStreamDecoder {
    /// Flushes the event at the end of an event or of the stream: see
    /// `flush_step`.
    fn flush_line(&mut self, eof: bool) -> (r: LineResult)
        requires
            old(self).wf(),
        ensures
            final(self).wf(),
            final(self).max_event_bytes() == old(self).max_event_bytes(),
            final(self).gathered() == flush_step(old(self).gathered(), eof).decoder,
            opt_event(r.event) == flush_step(old(self).gathered(), eof).event,
            error_for(flush_step(old(self).gathered(), eof).end, r.error),
    {
        match self.flush_event() {
            Ok(event) => LineResult {
                event,
                error: if eof {
                    Some(SubscribeError::eof())
                } else {
                    None
                },
            },
            Err(e) => LineResult { event: None, error: Some(e) },
        }
    }

    /// Reads one line, as it came with its newline, or without one where it
    /// is the last of the stream: see `read_line`.
    pub fn feed_line(&mut self, line: &[u8]) -> (r: LineResult)
        requires
            old(self).wf(),
        ensures
            final(self).wf(),
            final(self).max_event_bytes() == old(self).max_event_bytes(),
            final(self).gathered() == read_line(
                old(self).gathered(),
                line@,
                old(self).max_event_bytes(),
            ).decoder,
            opt_event(r.event) == read_line(
                old(self).gathered(),
                line@,
                old(self).max_event_bytes(),
            ).event,
            error_for(
                read_line(old(self).gathered(), line@, old(self).max_event_bytes()).end,
                r.error,
            ),
    {
        let eof = line.len() == 0 || line[line.len() - 1] != 0x0a;
        if !is_utf8(line) {
            return LineResult {
                event: None,
                error: Some(
                    SubscribeError::other(
                        "cxdb subscribe: read error: stream did not contain valid UTF-8".to_string(),
                    ),
                ),
            };
        }
        let n = trimmed_len(line);
        let text = slice_subrange(line, 0, n);
        if n == 0 {
            return self.flush_line(eof);
        }
        if text[0] == 0x3a {
            return LineResult {
                event: None,
                error: if eof {
                    Some(SubscribeError::eof())
                } else {
                    None
                },
            };
        }
        let c = find_colon(text);
        let name = slice_subrange(text, 0, c);
        if is_malformed(name) {
            let shown = lossy_text(name);
            return LineResult {
                event: None,
                error: Some(
                    SubscribeError::other(
                        concat3("cxdb subscribe: malformed field \"", shown.as_str(), "\""),
                    ),
                ),
            };
        }
        let value = if c >= n {
            slice_subrange(text, n, n)
        } else if c + 1 < n && text[c + 1] == 0x20 {
            slice_subrange(text, c + 2, n)
        } else {
            slice_subrange(text, c + 1, n)
        };
        assert(value@ =~= field_value(text@));
        self.take_field(name, value);
        if self.max_event_bytes > 0 && self.data_size > self.max_event_bytes {
            let size = u64_to_string(self.data_size as u64);
            return LineResult {
                event: None,
                error: Some(
                    SubscribeError::other(
                        concat3(
                            "cxdb subscribe: event exceeds max size (",
                            size.as_str(),
                            " bytes)",
                        ),
                    ),
                ),
            };
        }
        if eof {
            return self.flush_line(true);
        }
        LineResult { event: None, error: None }
    }
}

/// The place behind the first newline at or behind `at`, or the end of the
/// input where there is none.
pub open spec fn line_end_index(input: Seq<u8>, at: int) -> int
    decreases input.len() - at,
{
    if at < 0 || at >= input.len() {
        input.len() as int
    } else if input[at] == 0x0a {
        at + 1
    } else {
        line_end_index(input, at + 1)
    }
}

/// The events of the list with one more, where there is one.
pub open spec fn with_event(acc: Seq<EventView>, e: Option<EventView>) -> Seq<EventView> {
    match e {
        Some(event) => acc.push(event),
        None => acc,
    }
}

/// Reads an event stream from `at`, line by line, until a line ends it: the
/// events that were emitted, behind `acc`, and how the stream ended. The end
/// of the input ends the stream.
pub open spec fn stream_from(
    d: DecoderView,
    input: Seq<u8>,
    at: int,
    max_event_bytes: usize,
    acc: Seq<EventView>,
) -> (Seq<EventView>, LineEnd)
    decreases input.len() - at,
{
    if at < 0 || at >= input.len() {
        (acc, LineEnd::Eof)
    } else {
        let end = line_end_index(input, at);
        let step = read_line(d, input.subrange(at, end), max_event_bytes);
        let events = with_event(acc, step.event);
        match step.end {
            LineEnd::GoOn => if at < end <= input.len() {
                stream_from(step.decoder, input, end, max_event_bytes, events)
            } else {
                (events, LineEnd::Eof)
            },
            LineEnd::Eof => (events, LineEnd::Eof),
            LineEnd::Unreadable => (events, LineEnd::Unreadable),
            LineEnd::Malformed => (events, LineEnd::Malformed),
            LineEnd::TooLarge => (events, LineEnd::TooLarge),
        }
    }
}

/// The events of a list.
pub open spec fn events_view(events: Seq<Event>) -> Seq<EventView> {
    Seq::new(events.len(), |i: int| events[i]@)
}

/// The place behind the first newline at or behind `at`.
fn find_line_end(input: &[u8], at: usize) -> (end: usize)
    requires
        at < input.len(),
    ensures
        end == line_end_index(input@, at as int),
        at < end <= input.len(),
{
    let mut i: usize = at;
    while i < input.len() && input[i] != 0x0a
        invariant
            at <= i <= input.len(),
            line_end_index(input@, i as int) == line_end_index(input@, at as int),
        decreases input.len() - i,
    {
        i += 1;
    }
    if i < input.len() {
        i + 1
    } else {
        i
    }
}

/// Reads an event stream that is all there: the events that it emits, and
/// the error that ends it, which is `Eof` where the stream is read to its
/// end.
pub fn read_event_stream(input: &[u8], max_event_bytes: usize) -> (r: (Vec<Event>, SubscribeError))
    ensures
        events_view(r.0@) == stream_from(
            empty_decoder(),
            input@,
            0,
            max_event_bytes,
            Seq::empty(),
        ).0,
        error_for(
            stream_from(empty_decoder(), input@, 0, max_event_bytes, Seq::empty()).1,
            Some(r.1),
        ),
{
    let mut decoder = EventStreamDecoder::new(max_event_bytes);
    let mut events: Vec<Event> = Vec::new();
    let mut at: usize = 0;
    assert(events_view(events@) =~= Seq::empty());
    while at < input.len()
        invariant
            at <= input.len(),
            decoder.wf(),
            decoder.max_event_bytes() == max_event_bytes,
            stream_from(decoder.gathered(), input@, at as int, max_event_bytes, events_view(events@))
                == stream_from(empty_decoder(), input@, 0, max_event_bytes, Seq::empty()),
        decreases input.len() - at,
    {
        let end = find_line_end(input, at);
        let result = decoder.feed_line(slice_subrange(input, at, end));
        let ghost before = events_view(events@);
        if let Some(event) = result.event {
            events.push(event);
            assert(events_view(events@) =~= before.push(event@));
        }
        if let Some(error) = result.error {
            return (events, error);
        }
        at = end;
    }
    (events, SubscribeError::eof())
}

/// The options of a subscription.
#[derive(Debug)]
pub struct SubscribeOptions {
    /// The headers that go with the request.
    pub headers: Vec<(String, String)>,
    /// The largest data of an event, or 0 for any size.
    pub max_event_bytes: usize,
    /// How many events are buffered for the consumer.
    pub event_buffer: usize,
    /// How many errors are buffered for the consumer.
    pub error_buffer: usize,
    /// The first delay before a retry, in milliseconds.
    pub retry_delay_ms: u64,
    /// The largest delay before a retry, in milliseconds, or 0 for any.
    pub max_retry_delay_ms: u64,
}

impl SubscribeOptions {
    /// The options where none are set.
    pub fn new() -> (o: SubscribeOptions)
        ensures
            o.headers@.len() == 0,
            o.max_event_bytes == DEFAULT_MAX_EVENT_BYTES,
            o.event_buffer == 128,
            o.error_buffer == 8,
            o.retry_delay_ms == DEFAULT_RETRY_DELAY_MS,
            o.max_retry_delay_ms == DEFAULT_MAX_RETRY_DELAY_MS,
    {
        SubscribeOptions {
            headers: Vec::new(),
            max_event_bytes: DEFAULT_MAX_EVENT_BYTES,
            event_buffer: 128,
            error_buffer: 8,
            retry_delay_ms: DEFAULT_RETRY_DELAY_MS,
            max_retry_delay_ms: DEFAULT_MAX_RETRY_DELAY_MS,
        }
    }
}

/// One option of a subscription.
#[derive(Debug)]
pub enum SubscribeOption {
    Headers(Vec<(String, String)>),
    MaxEventBytes(usize),
    EventBuffer(usize),
    ErrorBuffer(usize),
    RetryDelay(u64),
    MaxRetryDelay(u64),
}

impl SubscribeOption {
    /// Sets the option in the options.
    pub fn apply(self, opts: &mut SubscribeOptions)
        ensures
            match self {
                SubscribeOption::Headers(h) => *final(opts) == (SubscribeOptions {
                    headers: h,
                    ..*old(opts)
                }),
                SubscribeOption::MaxEventBytes(n) => *final(opts) == (SubscribeOptions {
                    max_event_bytes: n,
                    ..*old(opts)
                }),
                SubscribeOption::EventBuffer(n) => *final(opts) == (SubscribeOptions {
                    event_buffer: n,
                    ..*old(opts)
                }),
                SubscribeOption::ErrorBuffer(n) => *final(opts) == (SubscribeOptions {
                    error_buffer: n,
                    ..*old(opts)
                }),
                SubscribeOption::RetryDelay(ms) => *final(opts) == (SubscribeOptions {
                    retry_delay_ms: ms,
                    ..*old(opts)
                }),
                SubscribeOption::MaxRetryDelay(ms) => *final(opts) == (SubscribeOptions {
                    max_retry_delay_ms: ms,
                    ..*old(opts)
                }),
            },
    {
        match self {
            SubscribeOption::Headers(h) => {
                opts.headers = h;
            },
            SubscribeOption::MaxEventBytes(n) => {
                opts.max_event_bytes = n;
            },
            SubscribeOption::EventBuffer(n) => {
                opts.event_buffer = n;
            },
            SubscribeOption::ErrorBuffer(n) => {
                opts.error_buffer = n;
            },
            SubscribeOption::RetryDelay(ms) => {
                opts.retry_delay_ms = ms;
            },
            SubscribeOption::MaxRetryDelay(ms) => {
                opts.max_retry_delay_ms = ms;
            },
        }
    }
}

/// The option that sets the headers of the request.
pub fn with_headers(headers: Vec<(String, String)>) -> (o: SubscribeOption)
    ensures
        o == SubscribeOption::Headers(headers),
{
    SubscribeOption::Headers(headers)
}

/// The option that sets the largest data of an event.
pub fn with_max_event_bytes(n: usize) -> (o: SubscribeOption)
    ensures
        o == SubscribeOption::MaxEventBytes(n),
{
    SubscribeOption::MaxEventBytes(n)
}

/// The option that sets how many events are buffered.
pub fn with_event_buffer(n: usize) -> (o: SubscribeOption)
    ensures
        o == SubscribeOption::EventBuffer(n),
{
    SubscribeOption::EventBuffer(n)
}

/// The option that sets how many errors are buffered.
pub fn with_error_buffer(n: usize) -> (o: SubscribeOption)
    ensures
        o == SubscribeOption::ErrorBuffer(n),
{
    SubscribeOption::ErrorBuffer(n)
}

/// The option that sets the first delay before a retry, in milliseconds.
pub fn with_subscribe_retry_delay(delay_ms: u64) -> (o: SubscribeOption)
    ensures
        o == SubscribeOption::RetryDelay(delay_ms),
{
    SubscribeOption::RetryDelay(delay_ms)
}

/// The option that sets the largest delay before a retry, in milliseconds.
pub fn with_subscribe_max_retry_delay(delay_ms: u64) -> (o: SubscribeOption)
    ensures
        o == SubscribeOption::MaxRetryDelay(delay_ms),
{
    SubscribeOption::MaxRetryDelay(delay_ms)
}

/// The error for a URL that is empty but for whitespace; none for another.
pub fn check_url(url: &str) -> (e: Option<SubscribeError>)
    ensures
        e is Some <==> trimmed(url@).len() == 0,
        e is Some ==> e.unwrap().kind() == SubscribeErrorKind::Other && e.unwrap().detail()
            == "cxdb subscribe: url is required"@,
{
    if trim(url).is_empty() {
        Some(SubscribeError::other("cxdb subscribe: url is required".to_string()))
    } else {
        None
    }
}

/// What is done after an attempt to follow the stream has ended.
#[derive(Debug, Clone, Copy, PartialEq, Eq, Structural)]
pub struct RetryPlan {
    /// Whether the error of the attempt is reported to the consumer.
    pub report: bool,
    /// How long to sleep before the next attempt, in milliseconds; `None`
    /// where there is no next attempt.
    pub sleep_ms: Option<u64>,
}

/// The delay that is slept before a retry: the default in the place of 0,
/// and no more than the maximum where one is set.
pub open spec fn bounded_delay(delay_ms: u64, max_ms: u64) -> u64 {
    let d = if delay_ms == 0 {
        DEFAULT_RETRY_DELAY_MS
    } else {
        delay_ms
    };
    if max_ms > 0 && d > max_ms {
        max_ms
    } else {
        d
    }
}

/// The retry policy of a subscription: the delay doubles from one failed
/// attempt to the next, up to a maximum, and starts over after an attempt
/// that connected.
#[derive(Debug, Clone, Copy)]
pub struct ReconnectPolicy {
    pub initial_delay_ms: u64,
    pub max_delay_ms: u64,
    pub delay_ms: u64,
}

impl ReconnectPolicy {
    /// The policy of a subscription with these options, before its first
    /// attempt.
    pub fn new(initial_delay_ms: u64, max_delay_ms: u64) -> (p: ReconnectPolicy)
        ensures
            p.initial_delay_ms == initial_delay_ms,
            p.max_delay_ms == max_delay_ms,
            p.delay_ms == initial_delay_ms,
    {
        ReconnectPolicy { initial_delay_ms, max_delay_ms, delay_ms: initial_delay_ms }
    }

    /// Plans what follows an attempt that ended with this kind of error, or
    /// without one. A cancellation is not reported, and neither it nor a
    /// timeout is followed by a retry. Otherwise the bounded delay is slept,
    /// starting over from the first delay where the attempt had connected,
    /// and the delay for the time after is doubled.
    pub fn after_attempt(&mut self, error: Option<SubscribeErrorKind>, connected: bool) -> (plan:
        RetryPlan)
        ensures
            plan.report == (error is Some && error != Some(SubscribeErrorKind::Cancelled)),
            final(self).initial_delay_ms == old(self).initial_delay_ms,
            final(self).max_delay_ms == old(self).max_delay_ms,
            if error == Some(SubscribeErrorKind::Cancelled) || error == Some(
                SubscribeErrorKind::Timeout,
            ) {
                plan.sleep_ms is None && final(self).delay_ms == old(self).delay_ms
            } else {
                let start = if connected {
                    old(self).initial_delay_ms
                } else {
                    old(self).delay_ms
                };
                &&& plan.sleep_ms == Some(bounded_delay(start, old(self).max_delay_ms))
                &&& final(self).delay_ms == spec_next_retry_delay(
                    bounded_delay(start, old(self).max_delay_ms),
                    old(self).max_delay_ms,
                )
            },
    {
        let report = match error {
            Some(SubscribeErrorKind::Cancelled) => false,
            Some(_) => true,
            None => false,
        };
        match error {
            Some(SubscribeErrorKind::Cancelled) => {
                return RetryPlan { report, sleep_ms: None };
            },
            Some(SubscribeErrorKind::Timeout) => {
                return RetryPlan { report, sleep_ms: None };
            },
            _ => {},
        }
        let mut delay = if connected {
            self.initial_delay_ms
        } else {
            self.delay_ms
        };
        if delay == 0 {
            delay = DEFAULT_RETRY_DELAY_MS;
        }
        if self.max_delay_ms > 0 && delay > self.max_delay_ms {
            delay = self.max_delay_ms;
        }
        self.delay_ms = next_retry_delay(delay, self.max_delay_ms);
        RetryPlan { report, sleep_ms: Some(delay) }
    }
}

} // verus!
