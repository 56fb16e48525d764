//! The options of a client, and the long names that its functions also go
//! by.

use crate::client::follow::{with_follow_buffer, with_max_seen_per_context, FollowOption};
use crate::client::subscribe::{
    with_error_buffer, with_event_buffer, with_headers, with_max_event_bytes,
    with_subscribe_max_retry_delay, with_subscribe_retry_delay, SubscribeOption,
};
use crate::client::turn::{is_server_error, spec_is_server_error, ClientError};
use std::time::Duration;
use vstd::prelude::*;

verus! {

/// One option of a client connection.
#[derive(Debug)]
pub enum ClientOption {
    DialTimeout(Duration),
    RequestTimeout(Duration),
    ClientTag(String),
}

/// The option that sets how long dialing may take.
pub fn with_dial_timeout(timeout: Duration) -> (o: ClientOption)
    ensures
        o == ClientOption::DialTimeout(timeout),
{
    ClientOption::DialTimeout(timeout)
}

/// The option that sets how long a request may take.
pub fn with_request_timeout(timeout: Duration) -> (o: ClientOption)
    ensures
        o == ClientOption::RequestTimeout(timeout),
{
    ClientOption::RequestTimeout(timeout)
}

/// The option that sets the tag that the client announces itself with.
pub fn with_client_tag(tag: String) -> (o: ClientOption)
    ensures
        o == ClientOption::ClientTag(tag),
{
    ClientOption::ClientTag(tag)
}

/// `with_follow_buffer` by its long name.
#[allow(non_snake_case)]
pub fn WithFollowBuffer(size: usize) -> (o: FollowOption)
    ensures
        o == FollowOption::Buffer(size),
{
    with_follow_buffer(size)
}

/// `with_max_seen_per_context` by its long name.
#[allow(non_snake_case)]
pub fn WithMaxSeenPerContext(limit: usize) -> (o: FollowOption)
    ensures
        o == FollowOption::MaxSeen(limit),
{
    with_max_seen_per_context(limit)
}

/// `is_server_error` by its long name.
#[allow(non_snake_case)]
pub fn IsServerError(err: &ClientError, code: u32) -> (b: bool)
    ensures
        b == spec_is_server_error(*err, code),
{
    is_server_error(err, code)
}

/// `with_dial_timeout` by its long name.
#[allow(non_snake_case)]
pub fn WithDialTimeout(timeout: Duration) -> (o: ClientOption)
    ensures
        o == ClientOption::DialTimeout(timeout),
{
    with_dial_timeout(timeout)
}

/// `with_request_timeout` by its long name.
#[allow(non_snake_case)]
pub fn WithRequestTimeout(timeout: Duration) -> (o: ClientOption)
    ensures
        o == ClientOption::RequestTimeout(timeout),
{
    with_request_timeout(timeout)
}

/// `with_client_tag` by its long name.
#[allow(non_snake_case)]
pub fn WithClientTag(tag: String) -> (o: ClientOption)
    ensures
        o == ClientOption::ClientTag(tag),
{
    with_client_tag(tag)
}

/// `with_headers` by its long name.
#[allow(non_snake_case)]
pub fn WithHeaders(headers: Vec<(String, String)>) -> (o: SubscribeOption)
    ensures
        o == SubscribeOption::Headers(headers),
{
    with_headers(headers)
}

/// `with_max_event_bytes` by its long name.
#[allow(non_snake_case)]
pub fn WithMaxEventBytes(n: usize) -> (o: SubscribeOption)
    ensures
        o == SubscribeOption::MaxEventBytes(n),
{
    with_max_event_bytes(n)
}

/// `with_event_buffer` by its long name.
#[allow(non_snake_case)]
pub fn WithEventBuffer(n: usize) -> (o: SubscribeOption)
    ensures
        o == SubscribeOption::EventBuffer(n),
{
    with_event_buffer(n)
}

/// `with_error_buffer` by its long name.
#[allow(non_snake_case)]
pub fn WithErrorBuffer(n: usize) -> (o: SubscribeOption)
    ensures
        o == SubscribeOption::ErrorBuffer(n),
{
    with_error_buffer(n)
}

/// `with_subscribe_retry_delay` by its long name.
#[allow(non_snake_case)]
pub fn WithSubscribeRetryDelay(delay_ms: u64) -> (o: SubscribeOption)
    ensures
        o == SubscribeOption::RetryDelay(delay_ms),
{
    with_subscribe_retry_delay(delay_ms)
}

/// `with_subscribe_max_retry_delay` by its long name.
#[allow(non_snake_case)]
pub fn WithSubscribeMaxRetryDelay(delay_ms: u64) -> (o: SubscribeOption)
    ensures
        o == SubscribeOption::MaxRetryDelay(delay_ms),
{
    with_subscribe_max_retry_delay(delay_ms)
}

} // verus!
