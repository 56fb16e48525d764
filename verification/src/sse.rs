//! The event stream endpoint: how events and heartbeats are written, and
//! when a heartbeat is due.

use crate::error::{ErrorKind, StoreError};
use crate::events::{event_json, event_name, StoreEvent};
use crate::index::{bytes_contain, has_run};
use crate::json::json_text;
use vstd::prelude::*;
use vstd::utf8::encode_utf8;

verus! {

/// The time between two heartbeats, in milliseconds.
pub const HEARTBEAT_INTERVAL_MS: u64 = 20000;

/// The time that the endpoint waits for an event, in milliseconds.
pub const EVENT_WAIT_MS: u64 = 5000;

/// The lowercase hex digits of a number, without leading zeros.
pub open spec fn lower_hex(n: nat) -> Seq<u8>
    decreases n,
{
    if n < 16 {
        seq![hex_byte(n)]
    } else {
        lower_hex(n / 16).push(hex_byte(n % 16))
    }
}

/// The lowercase hex digit of a number below 16, as a byte.
pub open spec fn hex_byte(n: nat) -> u8 {
    if n < 10 {
        (0x30 + n) as u8
    } else {
        (0x61 + (n - 10)) as u8
    }
}

/// The lowercase hex digit of a number below 16, as a byte.
fn hex_digit_of(n: usize) -> (digit: u8)
    requires
        n < 16,
    ensures
        digit == hex_byte(n as nat),
{
    if n < 10 {
        0x30 + n as u8
    } else {
        0x61 + (n - 10) as u8
    }
}

/// The lowercase hex digits of a number, without leading zeros.
fn hex_of(n: usize) -> (text: Vec<u8>)
    ensures
        text@ == lower_hex(n as nat),
    decreases n,
{
    if n < 16 {
        let mut text: Vec<u8> = Vec::new();
        text.push(hex_digit_of(n));
        assert(text@ =~= seq![hex_byte(n as nat)]);
        text
    } else {
        let mut text = hex_of(n / 16);
        text.push(hex_digit_of(n % 16));
        text
    }
}

/// A message as a chunk of a chunked response: its length in hex, a line
/// break, the message, a line break.
pub open spec fn chunk_bytes(message: Seq<u8>) -> Seq<u8> {
    lower_hex(message.len()) + seq![0x0du8, 0x0au8] + message + seq![0x0du8, 0x0au8]
}

/// The message of an event: `event: `, its type, a newline, `data: `, its
/// data, and a blank line.
pub open spec fn event_message(event_type: Seq<char>, data: Seq<char>) -> Seq<u8> {
    encode_utf8("event: "@) + encode_utf8(event_type) + encode_utf8("\ndata: "@) + encode_utf8(
        data,
    ) + encode_utf8("\n\n"@)
}

/// The message of a heartbeat: a comment and a blank line.
pub open spec fn heartbeat_message() -> Seq<u8> {
    encode_utf8(":heartbeat\n\n"@)
}

fn write_chunk(writer: &mut Vec<u8>, message: &Vec<u8>)
    ensures
        final(writer)@ == old(writer)@ + chunk_bytes(message@),
{
    let ghost before = writer@;
    let len = hex_of(message.len());
    writer.extend_from_slice(len.as_slice());
    writer.push(0x0d);
    writer.push(0x0a);
    writer.extend_from_slice(message.as_slice());
    writer.push(0x0d);
    writer.push(0x0a);
    assert(writer@ =~= before + chunk_bytes(message@));
}

/// Writes an event to the stream: the chunk of its message.
pub fn write_sse_event(writer: &mut Vec<u8>, event_type: &str, data: &str)
    ensures
        final(writer)@ == old(writer)@ + chunk_bytes(event_message(event_type@, data@)),
{
    let mut message: Vec<u8> = Vec::new();
    message.extend_from_slice("event: ".as_bytes());
    message.extend_from_slice(event_type.as_bytes());
    message.extend_from_slice("\ndata: ".as_bytes());
    message.extend_from_slice(data.as_bytes());
    message.extend_from_slice("\n\n".as_bytes());
    assert(message@ =~= event_message(event_type@, data@));
    write_chunk(writer, &message);
}

/// Writes a heartbeat to the stream: the chunk of its message.
pub fn write_sse_heartbeat(writer: &mut Vec<u8>)
    ensures
        final(writer)@ == old(writer)@ + chunk_bytes(heartbeat_message()),
{
    let mut message: Vec<u8> = Vec::new();
    message.extend_from_slice(":heartbeat\n\n".as_bytes());
    assert(message@ =~= heartbeat_message());
    write_chunk(writer, &message);
}

/// Writes the event that opens the stream: `connected`, with an empty
/// object.
pub fn write_sse_connected(writer: &mut Vec<u8>)
    ensures
        final(writer)@ == old(writer)@ + chunk_bytes(event_message("connected"@, "{}"@)),
{
    write_sse_event(writer, "connected", "{}");
}

/// What the endpoint writes after it has waited for an event: the event
/// where one came; else a heartbeat where none was written for the interval;
/// else nothing.
pub open spec fn stream_step(event: Option<StoreEvent>, last_write_ms: u64, now_ms: u64) -> Seq<u8> {
    match event {
        Some(e) => chunk_bytes(event_message(event_name(e), json_text(event_json(e)))),
        None => if now_ms >= last_write_ms && now_ms - last_write_ms >= HEARTBEAT_INTERVAL_MS {
            chunk_bytes(heartbeat_message())
        } else {
            Seq::empty()
        },
    }
}

/// Writes what is due after the endpoint has waited for an event, and gives
/// the time of the last write.
pub fn write_stream_step(
    writer: &mut Vec<u8>,
    event: Option<StoreEvent>,
    last_write_ms: u64,
    now_ms: u64,
) -> (last: u64)
    ensures
        final(writer)@ == old(writer)@ + stream_step(event, last_write_ms, now_ms),
        last == if stream_step(event, last_write_ms, now_ms).len() > 0 {
            now_ms
        } else {
            last_write_ms
        },
{
    match event {
        Some(e) => {
            let (event_type, data) = e.to_sse();
            write_sse_event(writer, event_type, data.as_str());
            proof {
                lemma_chunk_not_empty(event_message(event_name(e), json_text(event_json(e))));
            }
            now_ms
        },
        None => {
            if now_ms >= last_write_ms && now_ms - last_write_ms >= HEARTBEAT_INTERVAL_MS {
                write_sse_heartbeat(writer);
                proof {
                    lemma_chunk_not_empty(heartbeat_message());
                }
                now_ms
            } else {
                assert(writer@ =~= old(writer)@ + Seq::<u8>::empty());
                last_write_ms
            }
        },
    }
}

/// A chunk is never empty.
pub proof fn lemma_chunk_not_empty(message: Seq<u8>)
    ensures
        chunk_bytes(message).len() > 0,
{
}

/// The HTTP status of an error: 404 where something is absent, but 424 for a
/// type descriptor and 409 for a parent or base turn; 422 for invalid input;
/// 500 for corruption and I/O failures.
pub open spec fn spec_http_status(kind: ErrorKind, detail: Seq<char>) -> u16 {
    match kind {
        ErrorKind::NotFound => if has_run(encode_utf8(detail), encode_utf8("type descriptor"@)) {
            424
        } else if has_run(encode_utf8(detail), encode_utf8("parent turn"@)) || has_run(
            encode_utf8(detail),
            encode_utf8("base turn"@),
        ) {
            409
        } else {
            404
        },
        ErrorKind::InvalidInput => 422,
        ErrorKind::Corrupt => 500,
        ErrorKind::Io => 500,
    }
}

/// The HTTP status and the message of an error: see `spec_http_status`.
pub fn http_status(err: &StoreError) -> (r: (u16, String))
    ensures
        r.0 == spec_http_status(err.kind(), err.detail()),
        r.1@ == err.detail(),
{
    match err {
        StoreError::NotFound(msg) => {
            let text = msg.as_str().as_bytes();
            if bytes_contain(text, "type descriptor".as_bytes()) {
                (424, msg.clone())
            } else if bytes_contain(text, "parent turn".as_bytes()) || bytes_contain(
                text,
                "base turn".as_bytes(),
            ) {
                (409, msg.clone())
            } else {
                (404, msg.clone())
            }
        },
        StoreError::InvalidInput(msg) => (422, msg.clone()),
        StoreError::Corrupt(msg) => (500, msg.clone()),
        StoreError::Io(msg) => (500, msg.clone()),
    }
}

} // verus!
