//! The store in the same process as the client of a follower.

use crate::client::follow::TurnClient;
use crate::client::turn::{ClientError, ContextHead, GetLastOptions, TurnRecord, TurnRecordView};
use crate::error::{map_error, spec_error_code, ErrorKind, StoreError};
use crate::store::{
    turns_with_meta_view, with_meta_all, Store, StoreView, TurnWithMeta, TurnWithMetaView,
};
use crate::turn_store::spec_get_last;
use vstd::prelude::*;

verus! {

/// A turn of the store as a client sees it. With its payload, the payload
/// is the raw bytes and the compression is none; without, the payload is
/// empty and the compression is the one it came with.
pub open spec fn client_turn(item: TurnWithMetaView) -> TurnRecordView {
    TurnRecordView {
        turn_id: item.record.turn_id,
        parent_id: item.record.parent_turn_id,
        depth: item.record.depth,
        type_id: item.meta.declared_type_id,
        type_version: item.meta.declared_type_version,
        encoding: item.meta.encoding,
        compression: match item.payload {
            Some(_) => 0,
            None => item.meta.compression,
        },
        payload_hash: item.record.payload_hash@,
        payload: match item.payload {
            Some(raw) => raw,
            None => Seq::empty(),
        },
    }
}

/// The turns of a list as a client sees them.
pub open spec fn client_turns(items: Seq<TurnWithMetaView>) -> Seq<TurnRecordView> {
    Seq::new(items.len(), |i: int| client_turn(items[i]))
}

/// The views of a list of a client's turns.
pub open spec fn turn_views(turns: Seq<TurnRecord>) -> Seq<TurnRecordView> {
    Seq::new(turns.len(), |i: int| turns[i]@)
}

/// Whether a client's error is the error frame that stands for a failure
/// of this kind.
pub open spec fn is_error_frame(err: ClientError, kind: ErrorKind) -> bool {
    match err {
        ClientError::Server { code, .. } => code == spec_error_code(kind),
        ClientError::Other(_) => false,
    }
}

/// A turn of the store as a client sees it.
pub fn to_client_turn(item: &TurnWithMeta) -> (turn: TurnRecord)
    ensures
        turn@ == client_turn(item@),
{
    let (compression, payload) = match &item.payload {
        Some(raw) => (0, raw.clone()),
        None => (item.meta.compression, Vec::new()),
    };
    TurnRecord {
        turn_id: item.record.turn_id,
        parent_id: item.record.parent_turn_id,
        depth: item.record.depth,
        type_id: item.meta.declared_type_id.clone(),
        type_version: item.meta.declared_type_version,
        encoding: item.meta.encoding,
        compression,
        payload_hash: item.record.payload_hash,
        payload,
    }
}

fn to_client_error(err: StoreError) -> (e: ClientError)
    ensures
        is_error_frame(e, err.kind()),
{
    let (code, detail) = map_error(&err);
    ClientError::Server { code, detail }
}

/// A well-formed store that answers a follower without a connection.
pub struct LocalClient<'a> {
    store: &'a Store,
}

impl<'a> LocalClient<'a> {
    #[verifier::type_invariant]
    spec fn well_formed(self) -> bool {
        self.store.wf()
    }

    /// What the store holds.
    pub closed spec fn view(&self) -> StoreView {
        self.store@
    }

    /// A client over a store.
    pub fn new(store: &'a Store) -> (client: LocalClient<'a>)
        requires
            store.wf(),
        ensures
            client@ == store@,
    {
        LocalClient { store }
    }

    /// The head of a context; an error frame for `NotFound` where there is
    /// none.
    pub fn head_of(&self, context_id: u64) -> (r: Result<ContextHead, ClientError>)
        ensures
            match r {
                Ok(head) => self@.turns.heads.contains_key(context_id) && head.context_id
                    == self@.turns.heads[context_id].context_id && head.head_turn_id
                    == self@.turns.heads[context_id].head_turn_id && head.head_depth
                    == self@.turns.heads[context_id].head_depth,
                Err(e) => !self@.turns.heads.contains_key(context_id) && is_error_frame(
                    e,
                    ErrorKind::NotFound,
                ),
            },
    {
        match self.store.get_head(context_id) {
            Ok(head) => Ok(
                ContextHead {
                    context_id: head.context_id,
                    head_turn_id: head.head_turn_id,
                    head_depth: head.head_depth,
                },
            ),
            Err(e) => Err(to_client_error(e)),
        }
    }

    /// The last turns of a context as a client sees them, ancestors first;
    /// an error frame for the failure where the store fails.
    pub fn last_turns(&self, context_id: u64, opts: GetLastOptions) -> (r: Result<
        Vec<TurnRecord>,
        ClientError,
    >)
        ensures
            match spec_get_last(self@.turns, context_id, opts.limit) {
                None => r is Err && is_error_frame(r->Err_0, ErrorKind::NotFound),
                Some(turns) => match with_meta_all(self@, turns, opts.include_payload) {
                    Ok(items) => r is Ok && turn_views(r->Ok_0@) == client_turns(items),
                    Err(kind) => r is Err && is_error_frame(r->Err_0, kind),
                },
            },
    {
        proof {
            use_type_invariant(self);
        }
        let items = match self.store.get_last(context_id, opts.limit, opts.include_payload) {
            Ok(items) => items,
            Err(e) => {
                return Err(to_client_error(e));
            },
        };
        let mut out: Vec<TurnRecord> = Vec::with_capacity(items.len());
        let mut i: usize = 0;
        while i < items.len()
            invariant
                i <= items.len(),
                out@.len() == i,
                forall|k: int| 0 <= k < i ==> (#[trigger] out@[k])@ == client_turn(items@[k]@),
            decreases items.len() - i,
        {
            out.push(to_client_turn(&items[i]));
            i += 1;
        }
        assert(turn_views(out@) =~= client_turns(turns_with_meta_view(items@)));
        Ok(out)
    }
}

impl<'a> TurnClient for LocalClient<'a> {
    /// The head of a context: see `head_of`.
    fn get_head(&self, context_id: u64) -> (r: Result<ContextHead, ClientError>)
        ensures
            match r {
                Ok(head) => self@.turns.heads.contains_key(context_id) && head.context_id
                    == self@.turns.heads[context_id].context_id && head.head_turn_id
                    == self@.turns.heads[context_id].head_turn_id && head.head_depth
                    == self@.turns.heads[context_id].head_depth,
                Err(e) => !self@.turns.heads.contains_key(context_id) && is_error_frame(
                    e,
                    ErrorKind::NotFound,
                ),
            },
    {
        self.head_of(context_id)
    }

    /// The last turns of a context: see `last_turns`.
    fn get_last(&self, context_id: u64, opts: GetLastOptions) -> (r: Result<
        Vec<TurnRecord>,
        ClientError,
    >)
        ensures
            match spec_get_last(self@.turns, context_id, opts.limit) {
                None => r is Err && is_error_frame(r->Err_0, ErrorKind::NotFound),
                Some(turns) => match with_meta_all(self@, turns, opts.include_payload) {
                    Ok(items) => r is Ok && turn_views(r->Ok_0@) == client_turns(items),
                    Err(kind) => r is Err && is_error_frame(r->Err_0, kind),
                },
            },
    {
        self.last_turns(context_id, opts)
    }
}

} // verus!
