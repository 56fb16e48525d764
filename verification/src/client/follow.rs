//! The follow reconciler: it turns the notifications that turns were
//! appended into a stream of turns, each context's in the order of their
//! depth and each turn once.

use crate::client::events::{
    decode_turn_appended, spec_decode_turn_appended, TurnAppendedEvent, TurnAppendedView,
};
use crate::client::turn::{ClientError, ContextHead, GetLastOptions, TurnRecord, TurnRecordView};
use crate::order::contains_number;
use crate::text::{concat3, u64_to_string};
use vstd::prelude::*;

verus! {

/// A failure of the follower.
#[derive(Debug)]
pub enum FollowError {
    /// The request was cancelled.
    Cancelled,
    /// The deadline of the request passed.
    Timeout,
    /// A notification could not be decoded.
    Decode(String),
    /// A call to the store failed.
    Client(ClientError),
    /// Another failure.
    Other(String),
}

/// The text of an error of the follower.
pub open spec fn follow_error_text(e: FollowError) -> Seq<char> {
    match e {
        FollowError::Cancelled => "context canceled"@,
        FollowError::Timeout => "context deadline exceeded"@,
        FollowError::Decode(msg) => msg@,
        FollowError::Client(ClientError::Server { detail, .. }) => detail@,
        FollowError::Client(ClientError::Other(msg)) => msg@,
        FollowError::Other(msg) => msg@,
    }
}

impl FollowError {
    /// The text of the error.
    pub fn message(&self) -> (text: String)
        ensures
            text@ == follow_error_text(*self),
    {
        match self {
            FollowError::Cancelled => "context canceled".to_string(),
            FollowError::Timeout => "context deadline exceeded".to_string(),
            FollowError::Decode(msg) => msg.clone(),
            FollowError::Client(ClientError::Server { detail, .. }) => detail.clone(),
            FollowError::Client(ClientError::Other(msg)) => msg.clone(),
            FollowError::Other(msg) => msg.clone(),
        }
    }
}

/// What a follower asks of the store.
pub trait TurnClient {
    /// The head of a context.
    fn get_head(&self, context_id: u64) -> Result<ContextHead, ClientError>;

    /// The last turns of a context, ancestors first.
    fn get_last(&self, context_id: u64, opts: GetLastOptions) -> Result<
        Vec<TurnRecord>,
        ClientError,
    >;
}

/// How many turns are buffered for the consumer, where no other number is
/// set.
pub const DEFAULT_FOLLOW_BUFFER: usize = 128;

/// How many delivered turns are remembered for each context, where no other
/// number is set.
pub const DEFAULT_MAX_SEEN_PER_CONTEXT: usize = 2048;

/// The options of a follower.
#[derive(Debug, Clone, Copy)]
pub struct FollowOptions {
    pub buffer_size: usize,
    pub max_seen_per_context: usize,
}

impl FollowOptions {
    /// The options where none are set.
    pub fn new() -> (o: FollowOptions)
        ensures
            o.buffer_size == DEFAULT_FOLLOW_BUFFER,
            o.max_seen_per_context == DEFAULT_MAX_SEEN_PER_CONTEXT,
    {
        FollowOptions {
            buffer_size: DEFAULT_FOLLOW_BUFFER,
            max_seen_per_context: DEFAULT_MAX_SEEN_PER_CONTEXT,
        }
    }
}

/// One option of a follower.
#[derive(Debug, Clone, Copy, PartialEq, Eq, Structural)]
pub enum FollowOption {
    Buffer(usize),
    MaxSeen(usize),
}

impl FollowOption {
    /// Sets the option in the options.
    pub fn apply(&self, opts: &mut FollowOptions)
        ensures
            match *self {
                FollowOption::Buffer(size) => *final(opts) == (FollowOptions {
                    buffer_size: size,
                    ..*old(opts)
                }),
                FollowOption::MaxSeen(limit) => *final(opts) == (FollowOptions {
                    max_seen_per_context: limit,
                    ..*old(opts)
                }),
            },
    {
        match self {
            FollowOption::Buffer(size) => {
                opts.buffer_size = *size;
            },
            FollowOption::MaxSeen(limit) => {
                opts.max_seen_per_context = *limit;
            },
        }
    }
}

/// The option that sets how many turns are buffered.
pub fn with_follow_buffer(size: usize) -> (o: FollowOption)
    ensures
        o == FollowOption::Buffer(size),
{
    FollowOption::Buffer(size)
}

/// The option that sets how many delivered turns are remembered for each
/// context.
pub fn with_max_seen_per_context(limit: usize) -> (o: FollowOption)
    ensures
        o == FollowOption::MaxSeen(limit),
{
    FollowOption::MaxSeen(limit)
}

/// A turn of a context, as the follower delivers it.
#[derive(Debug)]
pub struct FollowTurn {
    pub context_id: u64,
    pub turn: TurnRecord,
}

/// What the follower remembers of a context: the turn it delivered last,
/// and the ids of the turns it delivered, oldest first, of which the oldest
/// is forgotten first.
pub struct FollowState {
    has_last: bool,
    last_seen_turn_id: u64,
    last_seen_depth: u32,
    seen_order: Vec<u64>,
    max_seen: usize,
}

/// What a `FollowState` holds.
pub ghost struct FollowStateView {
    /// Whether a turn was delivered.
    pub has_last: bool,
    /// The deepest turn that was delivered, and the last of those.
    pub last_seen_turn_id: u64,
    /// The depth of that turn.
    pub last_seen_depth: u32,
    /// The turns that were delivered and are remembered, oldest first.
    pub seen: Seq<u64>,
    /// How many delivered turns are remembered.
    pub max_seen: usize,
}

/// What is to be done for a context whose head is at a depth.
#[derive(Debug, Clone, Copy, PartialEq, Eq, Structural)]
pub enum SyncPlan {
    /// The head is less deep than a turn that was delivered.
    Regressed,
    /// Nothing is missing.
    UpToDate,
    /// This many of the last turns are to be fetched.
    Fetch(u32),
}

/// What is to be done for a context whose head is at a depth: with turns
/// delivered and remembered, as many turns are missing as the head is
/// deeper than the deepest of them; else all turns down to the head are.
pub open spec fn spec_plan(v: FollowStateView, head_depth: u32) -> SyncPlan {
    if v.has_last && head_depth < v.last_seen_depth {
        SyncPlan::Regressed
    } else if v.has_last && v.seen.len() > 0 {
        if head_depth == v.last_seen_depth {
            SyncPlan::UpToDate
        } else {
            SyncPlan::Fetch((head_depth - v.last_seen_depth) as u32)
        }
    } else if head_depth == u32::MAX {
        SyncPlan::Fetch(u32::MAX)
    } else {
        SyncPlan::Fetch((head_depth + 1) as u32)
    }
}

/// The state after a turn was delivered: the turn is remembered, the oldest
/// are forgotten until no more than the maximum are left, and the turn is
/// the last seen where none was or it is as deep as that, at least.
pub open spec fn recorded(v: FollowStateView, turn_id: u64, depth: u32) -> FollowStateView {
    let all = v.seen.push(turn_id);
    let newer = !v.has_last || depth >= v.last_seen_depth;
    FollowStateView {
        has_last: true,
        last_seen_turn_id: if newer {
            turn_id
        } else {
            v.last_seen_turn_id
        },
        last_seen_depth: if newer {
            depth
        } else {
            v.last_seen_depth
        },
        seen: if all.len() > v.max_seen {
            all.skip(all.len() - v.max_seen)
        } else {
            all
        },
        max_seen: v.max_seen,
    }
}

/// The state after the turns of a list, up to the `n`-th, were taken: each
/// that was not remembered is delivered and recorded.
pub open spec fn accepted_state(v: FollowStateView, turns: Seq<TurnRecordView>, n: nat) -> FollowStateView
    decreases n,
{
    if n == 0 || n > turns.len() {
        v
    } else {
        let before = accepted_state(v, turns, (n - 1) as nat);
        if before.seen.contains(turns[n - 1].turn_id) {
            before
        } else {
            recorded(before, turns[n - 1].turn_id, turns[n - 1].depth)
        }
    }
}

/// The turns of a list, up to the `n`-th, that are delivered: those that
/// were not remembered when their turn came.
pub open spec fn delivered_turns(v: FollowStateView, turns: Seq<TurnRecordView>, n: nat) -> Seq<
    TurnRecordView,
>
    decreases n,
{
    if n == 0 || n > turns.len() {
        Seq::empty()
    } else {
        let before = accepted_state(v, turns, (n - 1) as nat);
        let front = delivered_turns(v, turns, (n - 1) as nat);
        if before.seen.contains(turns[n - 1].turn_id) {
            front
        } else {
            front.push(turns[n - 1])
        }
    }
}

/// The turns of a list.
pub open spec fn turns_view(turns: Seq<TurnRecord>) -> Seq<TurnRecordView> {
    Seq::new(turns.len(), |i: int| turns[i]@)
}

/// The turns of a list of delivered turns.
pub open spec fn follow_turns_view(turns: Seq<FollowTurn>) -> Seq<TurnRecordView> {
    Seq::new(turns.len(), |i: int| turns[i].turn@)
}

impl View for FollowState {
    type V = FollowStateView;

    closed spec fn view(&self) -> FollowStateView {
        FollowStateView {
            has_last: self.has_last,
            last_seen_turn_id: self.last_seen_turn_id,
            last_seen_depth: self.last_seen_depth,
            seen: self.seen_order@,
            max_seen: self.max_seen,
        }
    }
}

impl FollowState {
    /// The state of a context of which nothing was delivered. It remembers
    /// `max_seen` turns, or the default number where that is 0.
    pub fn new(max_seen: usize) -> (state: FollowState)
        ensures
            state@ == (FollowStateView {
                has_last: false,
                last_seen_turn_id: 0,
                last_seen_depth: 0,
                seen: Seq::empty(),
                max_seen: if max_seen == 0 {
                    DEFAULT_MAX_SEEN_PER_CONTEXT
                } else {
                    max_seen
                },
            }),
    {
        let max_seen = if max_seen == 0 {
            DEFAULT_MAX_SEEN_PER_CONTEXT
        } else {
            max_seen
        };
        FollowState {
            has_last: false,
            last_seen_turn_id: 0,
            last_seen_depth: 0,
            seen_order: Vec::new(),
            max_seen,
        }
    }

    /// Whether a turn was delivered and is remembered.
    pub fn seen_turn(&self, turn_id: u64) -> (seen: bool)
        ensures
            seen == self@.seen.contains(turn_id),
    {
        contains_number(&self.seen_order, turn_id)
    }

    /// Records that a turn was delivered: see `recorded`.
    pub fn record_turn(&mut self, turn: &TurnRecord)
        ensures
            final(self)@ == recorded(old(self)@, turn.turn_id, turn.depth),
    {
        self.seen_order.push(turn.turn_id);
        let ghost all = self.seen_order@;
        while self.seen_order.len() > self.max_seen
            invariant
                self.max_seen == old(self).max_seen,
                self.has_last == old(self).has_last,
                self.last_seen_depth == old(self).last_seen_depth,
                self.last_seen_turn_id == old(self).last_seen_turn_id,
                self.seen_order@.len() <= all.len(),
                all == old(self).seen_order@.push(turn.turn_id),
                self.seen_order@.len() >= self.max_seen || self.seen_order@.len() == all.len(),
                self.seen_order@ == all.skip(all.len() - self.seen_order@.len()),
            decreases self.seen_order@.len(),
        {
            let ghost before = self.seen_order@;
            self.seen_order.remove(0);
            assert(self.seen_order@ =~= all.skip(all.len() - self.seen_order@.len()));
        }
        assert(all.skip(0) =~= all);
        if !self.has_last || turn.depth >= self.last_seen_depth {
            self.last_seen_depth = turn.depth;
            self.last_seen_turn_id = turn.turn_id;
            self.has_last = true;
        }
    }

    /// Plans what is to be done for the context when its head is at a depth:
    /// see `spec_plan`.
    pub fn plan_sync(&self, head_depth: u32) -> (plan: SyncPlan)
        ensures
            plan == spec_plan(self@, head_depth),
    {
        if self.has_last && head_depth < self.last_seen_depth {
            return SyncPlan::Regressed;
        }
        if self.has_last && self.seen_order.len() > 0 {
            if head_depth == self.last_seen_depth {
                SyncPlan::UpToDate
            } else {
                SyncPlan::Fetch(head_depth - self.last_seen_depth)
            }
        } else if head_depth == u32::MAX {
            SyncPlan::Fetch(u32::MAX)
        } else {
            SyncPlan::Fetch(head_depth + 1)
        }
    }

    /// Takes the turns that the store gave: each that is not remembered is
    /// delivered and recorded, in the order of the list.
    pub fn accept_turns(&mut self, context_id: u64, turns: Vec<TurnRecord>) -> (out: Vec<FollowTurn>)
        ensures
            final(self)@ == accepted_state(old(self)@, turns_view(turns@), turns@.len() as nat),
            follow_turns_view(out@) == delivered_turns(
                old(self)@,
                turns_view(turns@),
                turns@.len() as nat,
            ),
            forall|i: int| 0 <= i < out@.len() ==> (#[trigger] out@[i]).context_id == context_id,
    {
        let ghost all = turns_view(turns@);
        let mut out: Vec<FollowTurn> = Vec::new();
        let mut i: usize = 0;
        assert(follow_turns_view(out@) =~= Seq::empty());
        while i < turns.len()
            invariant
                i <= turns.len(),
                all == turns_view(turns@),
                self@ == accepted_state(old(self)@, all, i as nat),
                follow_turns_view(out@) == delivered_turns(old(self)@, all, i as nat),
                forall|k: int| 0 <= k < out@.len() ==> (#[trigger] out@[k]).context_id == context_id,
            decreases turns.len() - i,
        {
            if !self.seen_turn(turns[i].turn_id) {
                let ghost before = follow_turns_view(out@);
                let turn = turns[i].clone();
                self.record_turn(&turn);
                out.push(FollowTurn { context_id, turn });
                assert(follow_turns_view(out@) =~= before.push(all[i as int]));
            }
            i += 1;
        }
        out
    }

    /// Brings the follower up to the head of a context: asks the store for
    /// the head, plans what is missing, asks for the missing turns, and
    /// takes them. Gives the turns to deliver.
    ///
    /// Fails with `Client` where a call to the store fails, and with `Other`
    /// where the head is less deep than a turn that was delivered; the state
    /// is then unchanged. Whatever the store gave, no turn is delivered that
    /// was remembered.
    pub fn sync_context<C: TurnClient>(&mut self, client: &C, context_id: u64) -> (r: Result<
        Vec<FollowTurn>,
        FollowError,
    >)
        ensures
            final(self)@.max_seen == old(self)@.max_seen,
            match r {
                Ok(out) => {
                    &&& forall|i: int|
                        0 <= i < out@.len() ==> (#[trigger] out@[i]).context_id == context_id
                    &&& exists|turns: Seq<TurnRecordView>|
                        {
                            &&& final(self)@ == #[trigger] accepted_state(
                                old(self)@,
                                turns,
                                turns.len(),
                            )
                            &&& follow_turns_view(out@) == delivered_turns(
                                old(self)@,
                                turns,
                                turns.len(),
                            )
                        }
                },
                Err(e) => final(self)@ == old(self)@ && (e is Client || e is Other),
            },
    {
        let head = match client.get_head(context_id) {
            Ok(head) => head,
            Err(e) => {
                return Err(FollowError::Client(e));
            },
        };
        let missing = match self.plan_sync(head.head_depth) {
            SyncPlan::Regressed => {
                let id = u64_to_string(context_id);
                return Err(
                    FollowError::Other(
                        concat3("follow turns: head depth regressed (context ", id.as_str(), ")"),
                    ),
                );
            },
            SyncPlan::UpToDate => {
                let none: Vec<FollowTurn> = Vec::new();
                proof {
                    let no_turns = Seq::<TurnRecordView>::empty();
                    assert(self@ == accepted_state(old(self)@, no_turns, no_turns.len()));
                    assert(follow_turns_view(none@) =~= delivered_turns(
                        old(self)@,
                        no_turns,
                        no_turns.len(),
                    ));
                }
                return Ok(none);
            },
            SyncPlan::Fetch(n) => n,
        };
        let turns = match client.get_last(
            context_id,
            GetLastOptions { limit: missing, include_payload: true },
        ) {
            Ok(turns) => turns,
            Err(e) => {
                return Err(FollowError::Client(e));
            },
        };
        proof {
            lemma_accept_keeps_max(self@, turns_view(turns@), turns@.len() as nat);
        }
        Ok(self.accept_turns(context_id, turns))
    }
}

/// Taking turns does not change how many are remembered at most; with a
/// maximum above 0, no more than that many are remembered after it where no
/// more were before.
pub proof fn lemma_accept_keeps_max(v: FollowStateView, turns: Seq<TurnRecordView>, n: nat)
    ensures
        accepted_state(v, turns, n).max_seen == v.max_seen,
        v.seen.len() <= v.max_seen ==> accepted_state(v, turns, n).seen.len() <= v.max_seen,
    decreases n,
{
    if n > 0 && n <= turns.len() {
        lemma_accept_keeps_max(v, turns, (n - 1) as nat);
    }
}

/// A turn that is remembered is not delivered again: taking a list in which
/// a turn stands twice delivers it once at most.
pub proof fn lemma_no_turn_twice(v: FollowStateView, turns: Seq<TurnRecordView>, n: nat, i: int)
    requires
        0 <= i < n <= turns.len(),
        v.max_seen > 0,
        accepted_state(v, turns, i as nat).seen.contains(turns[i].turn_id),
    ensures
        delivered_turns(v, turns, (i + 1) as nat) == delivered_turns(v, turns, i as nat),
{
}

/// The notification that a turn was appended, decoded and checked: its data
/// are not empty, and it names a context and a turn.
pub open spec fn spec_decode_turn_appended_event(data: Seq<u8>) -> Option<TurnAppendedView> {
    if data.len() == 0 {
        None
    } else {
        match spec_decode_turn_appended(data) {
            Some(event) => if event.context_id == 0 || event.turn_id == 0 {
                None
            } else {
                Some(event)
            },
            None => None,
        }
    }
}

/// Decodes the notification that a turn was appended.
///
/// Fails with `Decode` where the data are empty, do not decode, or name no
/// context or no turn.
pub fn decode_turn_appended_event(data: &[u8]) -> (r: Result<TurnAppendedEvent, FollowError>)
    ensures
        match r {
            Ok(event) => spec_decode_turn_appended_event(data@) == Some(event@),
            Err(e) => spec_decode_turn_appended_event(data@) is None && e is Decode,
        },
{
    if data.len() == 0 {
        return Err(FollowError::Decode("turn_appended: empty payload".to_string()));
    }
    let event = match decode_turn_appended(data) {
        Ok(event) => event,
        Err(e) => {
            return Err(
                FollowError::Decode(concat3("turn_appended: decode: ", e.message.as_str(), "")),
            );
        },
    };
    if event.context_id == 0 {
        return Err(FollowError::Decode("turn_appended: missing context_id".to_string()));
    }
    if event.turn_id == 0 {
        return Err(FollowError::Decode("turn_appended: missing turn_id".to_string()));
    }
    Ok(event)
}

} // verus!
