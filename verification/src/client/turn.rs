//! Turns and heads as a client sees them.

use vstd::prelude::*;

verus! {

/// The tip of a context, as a client sees it.
#[derive(Debug, Clone, Copy)]
pub struct ContextHead {
    pub context_id: u64,
    pub head_turn_id: u64,
    pub head_depth: u32,
}

/// A turn with its payload, as a client sees it.
#[derive(Debug)]
pub struct TurnRecord {
    pub turn_id: u64,
    pub parent_id: u64,
    pub depth: u32,
    pub type_id: String,
    pub type_version: u32,
    pub encoding: u32,
    pub compression: u32,
    pub payload_hash: [u8; 32],
    pub payload: Vec<u8>,
}

/// What a client's `TurnRecord` holds.
pub ghost struct TurnRecordView {
    pub turn_id: u64,
    pub parent_id: u64,
    pub depth: u32,
    pub type_id: Seq<char>,
    pub type_version: u32,
    pub encoding: u32,
    pub compression: u32,
    pub payload_hash: Seq<u8>,
    pub payload: Seq<u8>,
}

impl View for TurnRecord {
    type V = TurnRecordView;

    open spec fn view(&self) -> TurnRecordView {
        TurnRecordView {
            turn_id: self.turn_id,
            parent_id: self.parent_id,
            depth: self.depth,
            type_id: self.type_id@,
            type_version: self.type_version,
            encoding: self.encoding,
            compression: self.compression,
            payload_hash: self.payload_hash@,
            payload: self.payload@,
        }
    }
}

impl Clone for TurnRecord {
    fn clone(&self) -> (copy: Self)
        ensures
            copy@ == self@,
    {
        TurnRecord {
            turn_id: self.turn_id,
            parent_id: self.parent_id,
            depth: self.depth,
            type_id: self.type_id.clone(),
            type_version: self.type_version,
            encoding: self.encoding,
            compression: self.compression,
            payload_hash: self.payload_hash,
            payload: self.payload.clone(),
        }
    }
}

/// What is asked of `get_last`.
#[derive(Debug, Clone, Copy)]
pub struct GetLastOptions {
    /// How many turns are asked for.
    pub limit: u32,
    /// Whether the payloads are asked for.
    pub include_payload: bool,
}

/// A failure of a call to the store.
#[derive(Debug)]
pub enum ClientError {
    /// The server answered with an error frame.
    Server { code: u32, detail: String },
    /// Another failure.
    Other(String),
}

/// Whether an error is the server's error with this code.
pub open spec fn spec_is_server_error(err: ClientError, code: u32) -> bool {
    match err {
        ClientError::Server { code: c, .. } => c == code,
        ClientError::Other(_) => false,
    }
}

/// Whether an error is the server's error with this code.
pub fn is_server_error(err: &ClientError, code: u32) -> (b: bool)
    ensures
        b == spec_is_server_error(*err, code),
{
    match err {
        ClientError::Server { code: c, .. } => *c == code,
        ClientError::Other(_) => false,
    }
}

} // verus!
