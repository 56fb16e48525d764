//! Store events and the bus that fans them out to subscribers.

use crate::json::{
    element_views, integral, json_text, json_to_string, lemma_json_view, member_views, Json,
    JsonNumber, JsonView,
};
use crate::text::clone_opt_string;
use std::sync::mpsc::{Receiver, Sender};
use std::time::Duration;
use vstd::prelude::*;

verus! {

/// A mutation of the store, or a change of who is connected to it.
#[derive(Debug)]
#[allow(inconsistent_fields)]
pub enum StoreEvent {
    /// A new context was created.
    ContextCreated { context_id: String, session_id: String, client_tag: String, created_at: u64 },
    /// The metadata of a context were taken from its first turn.
    ContextMetadataUpdated {
        context_id: String,
        client_tag: Option<String>,
        title: Option<String>,
        labels: Option<Vec<String>>,
        has_provenance: bool,
    },
    /// A context was linked to the context it came from.
    ContextLinked {
        child_context_id: String,
        parent_context_id: String,
        root_context_id: Option<String>,
        spawn_reason: Option<String>,
    },
    /// A turn was appended to a context.
    TurnAppended {
        context_id: String,
        turn_id: String,
        parent_turn_id: String,
        depth: u32,
        declared_type_id: Option<String>,
        declared_type_version: Option<u32>,
    },
    /// A client of the binary protocol connected.
    ClientConnected { session_id: String, client_tag: String },
    /// A client of the binary protocol disconnected.
    ClientDisconnected { session_id: String, client_tag: String, contexts: Vec<String> },
}

/// A list of texts as a JSON array of strings.
pub open spec fn json_strings(items: Seq<String>) -> JsonView {
    JsonView::Array(Seq::new(items.len(), |i: int| JsonView::String(items[i]@)))
}

/// The members with one more, where there is a text to add.
pub open spec fn with_text(
    members: Seq<(Seq<char>, JsonView)>,
    key: Seq<char>,
    value: Option<String>,
) -> Seq<(Seq<char>, JsonView)> {
    match value {
        Some(s) => members.push((key, JsonView::String(s@))),
        None => members,
    }
}

/// The name that an event goes by in the event stream.
pub open spec fn event_name(e: StoreEvent) -> Seq<char> {
    match e {
        StoreEvent::ContextCreated { .. } => "context_created"@,
        StoreEvent::ContextMetadataUpdated { .. } => "context_metadata_updated"@,
        StoreEvent::ContextLinked { .. } => "context_linked"@,
        StoreEvent::TurnAppended { .. } => "turn_appended"@,
        StoreEvent::ClientConnected { .. } => "client_connected"@,
        StoreEvent::ClientDisconnected { .. } => "client_disconnected"@,
    }
}

/// The members of the JSON object that an event is written as: the fields of
/// its kind, an optional field only where it is set.
pub open spec fn event_members(e: StoreEvent) -> Seq<(Seq<char>, JsonView)> {
    match e {
        StoreEvent::ContextCreated { context_id, session_id, client_tag, created_at } => seq![
            ("context_id"@, JsonView::String(context_id@)),
            ("session_id"@, JsonView::String(session_id@)),
            ("client_tag"@, JsonView::String(client_tag@)),
            ("created_at"@, JsonView::Number(JsonNumber::PosInt(created_at))),
        ],
        StoreEvent::ContextMetadataUpdated {
            context_id,
            client_tag,
            title,
            labels,
            has_provenance,
        } => {
            let base = with_text(
                with_text(
                    seq![
                        ("context_id"@, JsonView::String(context_id@)),
                        ("has_provenance"@, JsonView::Bool(has_provenance)),
                    ],
                    "client_tag"@,
                    client_tag,
                ),
                "title"@,
                title,
            );
            match labels {
                Some(l) => base.push(("labels"@, json_strings(l@))),
                None => base,
            }
        },
        StoreEvent::ContextLinked {
            child_context_id,
            parent_context_id,
            root_context_id,
            spawn_reason,
        } => with_text(
            with_text(
                seq![
                    ("child_context_id"@, JsonView::String(child_context_id@)),
                    ("parent_context_id"@, JsonView::String(parent_context_id@)),
                ],
                "root_context_id"@,
                root_context_id,
            ),
            "spawn_reason"@,
            spawn_reason,
        ),
        StoreEvent::TurnAppended {
            context_id,
            turn_id,
            parent_turn_id,
            depth,
            declared_type_id,
            declared_type_version,
        } => {
            let base = with_text(
                seq![
                    ("context_id"@, JsonView::String(context_id@)),
                    ("turn_id"@, JsonView::String(turn_id@)),
                    ("parent_turn_id"@, JsonView::String(parent_turn_id@)),
                    ("depth"@, JsonView::Number(JsonNumber::PosInt(depth as u64))),
                ],
                "declared_type_id"@,
                declared_type_id,
            );
            match declared_type_version {
                Some(v) => base.push(
                    ("declared_type_version"@, JsonView::Number(JsonNumber::PosInt(v as u64))),
                ),
                None => base,
            }
        },
        StoreEvent::ClientConnected { session_id, client_tag } => seq![
            ("session_id"@, JsonView::String(session_id@)),
            ("client_tag"@, JsonView::String(client_tag@)),
        ],
        StoreEvent::ClientDisconnected { session_id, client_tag, contexts } => seq![
            ("session_id"@, JsonView::String(session_id@)),
            ("client_tag"@, JsonView::String(client_tag@)),
            ("contexts"@, json_strings(contexts@)),
        ],
    }
}

/// The JSON object that an event is written as.
pub open spec fn event_json(e: StoreEvent) -> JsonView {
    JsonView::Object(event_members(e))
}

fn text_json(s: &String) -> (j: Json)
    ensures
        j@ == JsonView::String(s@),
{
    Json::String(s.clone())
}

fn strings_json(items: &Vec<String>) -> (j: Json)
    ensures
        j@ == json_strings(items@),
{
    let mut out: Vec<Json> = Vec::with_capacity(items.len());
    let mut i: usize = 0;
    while i < items.len()
        invariant
            i <= items.len(),
            out@.len() == i,
            forall|k: int| 0 <= k < i ==> out@[k]@ == JsonView::String(items@[k]@),
        decreases items.len() - i,
    {
        out.push(text_json(&items[i]));
        i += 1;
    }
    let j = Json::Array(out);
    proof {
        lemma_json_view(&j);
        assert(j@->Array_0 =~= json_strings(items@)->Array_0);
    }
    j
}

fn push_member(members: &mut Vec<(String, Json)>, key: &str, value: Json)
    ensures
        member_views(final(members)@) == member_views(old(members)@).push((key@, value@)),
{
    let ghost before = member_views(members@);
    members.push((key.to_string(), value));
    assert(member_views(members@) =~= before.push((key@, value@)));
}

fn push_text(members: &mut Vec<(String, Json)>, key: &str, value: &Option<String>)
    ensures
        member_views(final(members)@) == with_text(member_views(old(members)@), key@, *value),
{
    if let Some(s) = value {
        push_member(members, key, text_json(s));
    }
}

impl StoreEvent {
    /// The name that the event goes by in the event stream.
    pub fn name(&self) -> (name: &'static str)
        ensures
            name@ == event_name(*self),
    {
        match self {
            StoreEvent::ContextCreated { .. } => "context_created",
            StoreEvent::ContextMetadataUpdated { .. } => "context_metadata_updated",
            StoreEvent::ContextLinked { .. } => "context_linked",
            StoreEvent::TurnAppended { .. } => "turn_appended",
            StoreEvent::ClientConnected { .. } => "client_connected",
            StoreEvent::ClientDisconnected { .. } => "client_disconnected",
        }
    }

    /// The JSON object that the event is written as: see `event_members`.
    pub fn to_json(&self) -> (json: Json)
        ensures
            json@ == event_json(*self),
    {
        let mut m: Vec<(String, Json)> = Vec::new();
        assert(member_views(m@) =~= Seq::empty());
        match self {
            StoreEvent::ContextCreated { context_id, session_id, client_tag, created_at } => {
                push_member(&mut m, "context_id", text_json(context_id));
                push_member(&mut m, "session_id", text_json(session_id));
                push_member(&mut m, "client_tag", text_json(client_tag));
                push_member(&mut m, "created_at", Json::Number(JsonNumber::PosInt(*created_at)));
            },
            StoreEvent::ContextMetadataUpdated {
                context_id,
                client_tag,
                title,
                labels,
                has_provenance,
            } => {
                push_member(&mut m, "context_id", text_json(context_id));
                push_member(&mut m, "has_provenance", Json::Bool(*has_provenance));
                push_text(&mut m, "client_tag", client_tag);
                push_text(&mut m, "title", title);
                if let Some(l) = labels {
                    push_member(&mut m, "labels", strings_json(l));
                }
            },
            StoreEvent::ContextLinked {
                child_context_id,
                parent_context_id,
                root_context_id,
                spawn_reason,
            } => {
                push_member(&mut m, "child_context_id", text_json(child_context_id));
                push_member(&mut m, "parent_context_id", text_json(parent_context_id));
                push_text(&mut m, "root_context_id", root_context_id);
                push_text(&mut m, "spawn_reason", spawn_reason);
            },
            StoreEvent::TurnAppended {
                context_id,
                turn_id,
                parent_turn_id,
                depth,
                declared_type_id,
                declared_type_version,
            } => {
                push_member(&mut m, "context_id", text_json(context_id));
                push_member(&mut m, "turn_id", text_json(turn_id));
                push_member(&mut m, "parent_turn_id", text_json(parent_turn_id));
                push_member(&mut m, "depth", Json::Number(JsonNumber::PosInt(*depth as u64)));
                push_text(&mut m, "declared_type_id", declared_type_id);
                if let Some(v) = declared_type_version {
                    push_member(
                        &mut m,
                        "declared_type_version",
                        Json::Number(JsonNumber::PosInt(*v as u64)),
                    );
                }
            },
            StoreEvent::ClientConnected { session_id, client_tag } => {
                push_member(&mut m, "session_id", text_json(session_id));
                push_member(&mut m, "client_tag", text_json(client_tag));
            },
            StoreEvent::ClientDisconnected { session_id, client_tag, contexts } => {
                push_member(&mut m, "session_id", text_json(session_id));
                push_member(&mut m, "client_tag", text_json(client_tag));
                push_member(&mut m, "contexts", strings_json(contexts));
            },
        }
        let json = Json::Object(m);
        proof {
            lemma_json_view(&json);
            assert(member_views(m@) =~= event_members(*self));
        }
        json
    }

    /// The event as it goes into the event stream: its name, and the compact
    /// JSON text of its object.
    pub fn to_sse(&self) -> (r: (&'static str, String))
        ensures
            r.0@ == event_name(*self),
            r.1@ == json_text(event_json(*self)),
    {
        let json = self.to_json();
        proof {
            lemma_event_json_integral(*self);
        }
        (self.name(), json_to_string(&json))
    }
}

/// The JSON object of an event holds no number but integers.
pub proof fn lemma_event_json_integral(e: StoreEvent)
    ensures
        integral(event_json(e)),
{
    reveal_with_fuel(integral, 3);
    let members = event_members(e);
    assert forall|i: int| 0 <= i < members.len() implies integral((#[trigger] members[i]).1) by {}
}

impl Clone for StoreEvent {
    fn clone(&self) -> (copy: Self)
        ensures
            event_name(copy) == event_name(*self),
            event_members(copy) == event_members(*self),
    {
        match self {
            StoreEvent::ContextCreated { context_id, session_id, client_tag, created_at } => {
                StoreEvent::ContextCreated {
                    context_id: context_id.clone(),
                    session_id: session_id.clone(),
                    client_tag: client_tag.clone(),
                    created_at: *created_at,
                }
            },
            StoreEvent::ContextMetadataUpdated {
                context_id,
                client_tag,
                title,
                labels,
                has_provenance,
            } => {
                let labels = match labels {
                    Some(l) => {
                        let copy = clone_strings(l);
                        assert(json_strings(copy@)->Array_0 =~= json_strings(l@)->Array_0);
                        Some(copy)
                    },
                    None => None,
                };
                StoreEvent::ContextMetadataUpdated {
                    context_id: context_id.clone(),
                    client_tag: clone_opt_string(client_tag),
                    title: clone_opt_string(title),
                    labels,
                    has_provenance: *has_provenance,
                }
            },
            StoreEvent::ContextLinked {
                child_context_id,
                parent_context_id,
                root_context_id,
                spawn_reason,
            } => StoreEvent::ContextLinked {
                child_context_id: child_context_id.clone(),
                parent_context_id: parent_context_id.clone(),
                root_context_id: clone_opt_string(root_context_id),
                spawn_reason: clone_opt_string(spawn_reason),
            },
            StoreEvent::TurnAppended {
                context_id,
                turn_id,
                parent_turn_id,
                depth,
                declared_type_id,
                declared_type_version,
            } => StoreEvent::TurnAppended {
                context_id: context_id.clone(),
                turn_id: turn_id.clone(),
                parent_turn_id: parent_turn_id.clone(),
                depth: *depth,
                declared_type_id: clone_opt_string(declared_type_id),
                declared_type_version: *declared_type_version,
            },
            StoreEvent::ClientConnected { session_id, client_tag } => StoreEvent::ClientConnected {
                session_id: session_id.clone(),
                client_tag: client_tag.clone(),
            },
            StoreEvent::ClientDisconnected { session_id, client_tag, contexts } => {
                let copy = clone_strings(contexts);
                assert(json_strings(copy@)->Array_0 =~= json_strings(contexts@)->Array_0);
                StoreEvent::ClientDisconnected {
                    session_id: session_id.clone(),
                    client_tag: client_tag.clone(),
                    contexts: copy,
                }
            },
        }
    }
}

/// A copy of a list of texts.
pub fn clone_strings(items: &Vec<String>) -> (copy: Vec<String>)
    ensures
        copy@.len() == items@.len(),
        forall|i: int| 0 <= i < items@.len() ==> copy@[i]@ == items@[i]@,
{
    let mut copy: Vec<String> = Vec::with_capacity(items.len());
    let mut i: usize = 0;
    while i < items.len()
        invariant
            i <= items.len(),
            copy@.len() == i,
            forall|k: int| 0 <= k < i ==> copy@[k]@ == items@[k]@,
        decreases items.len() - i,
    {
        copy.push(items[i].clone());
        i += 1;
    }
    copy
}

/// `std::sync::mpsc::Sender`, which the bus holds and hands to no one.
#[verifier::external_type_specification]
#[verifier::external_body]
#[verifier::reject_recursive_types(T)]
pub struct ExSender<T>(Sender<T>);

/// `std::sync::mpsc::Receiver`, which a subscriber holds.
#[verifier::external_type_specification]
#[verifier::external_body]
#[verifier::reject_recursive_types(T)]
pub struct ExReceiver<T>(Receiver<T>);

/// Calls `std::sync::mpsc::channel`: a sender and the receiver it feeds.
#[verifier::external_body]
fn event_channel() -> (Sender<StoreEvent>, Receiver<StoreEvent>) {
    std::sync::mpsc::channel()
}

/// Calls `Sender::send`, which does not block: whether the event was put
/// into the queue, which it is unless the receiver is gone.
#[verifier::external_body]
fn send_event(tx: &Sender<StoreEvent>, event: StoreEvent) -> bool {
    tx.send(event).is_ok()
}

/// Calls `Receiver::recv`, which blocks until an event is there: the event,
/// or `None` where every sender is gone.
#[verifier::external_body]
fn receive_event(rx: &Receiver<StoreEvent>) -> Option<StoreEvent> {
    rx.recv().ok()
}

/// Calls `Receiver::try_recv`: the event that is waiting, if one is.
#[verifier::external_body]
fn try_receive_event(rx: &Receiver<StoreEvent>) -> Option<StoreEvent> {
    rx.try_recv().ok()
}

/// Calls `Receiver::recv_timeout`: the event that arrives within the time,
/// if one does.
#[verifier::external_body]
fn receive_event_timeout(rx: &Receiver<StoreEvent>, timeout: Duration) -> Option<StoreEvent> {
    rx.recv_timeout(timeout).ok()
}

/// The receiving end of a subscription to the bus.
pub struct EventSubscriber {
    rx: Receiver<StoreEvent>,
}

impl EventSubscriber {
    /// The next event; blocks until one is there. `None` where the bus is
    /// gone.
    pub fn recv(&self) -> Option<StoreEvent> {
        receive_event(&self.rx)
    }

    /// The event that is waiting, if one is.
    pub fn try_recv(&self) -> Option<StoreEvent> {
        try_receive_event(&self.rx)
    }

    /// The event that arrives within the time, if one does.
    pub fn recv_timeout(&self, timeout: Duration) -> Option<StoreEvent> {
        receive_event_timeout(&self.rx, timeout)
    }
}

/// The items of a sequence that a mask keeps, in their order.
pub open spec fn kept<T>(items: Seq<T>, keep: Seq<bool>) -> Seq<T>
    decreases items.len(),
{
    if items.len() == 0 || keep.len() != items.len() {
        Seq::empty()
    } else if keep.last() {
        kept(items.drop_last(), keep.drop_last()).push(items.last())
    } else {
        kept(items.drop_last(), keep.drop_last())
    }
}

/// The bus: the sending ends of its subscriptions, in the order in which
/// they were made.
pub struct EventBus {
    subscribers: Vec<Sender<StoreEvent>>,
}

impl EventBus {
    /// The sending ends of the subscriptions.
    pub closed spec fn senders(&self) -> Seq<Sender<StoreEvent>> {
        self.subscribers@
    }

    /// A bus without subscribers.
    pub fn new() -> (bus: EventBus)
        ensures
            bus.senders().len() == 0,
    {
        EventBus { subscribers: Vec::new() }
    }

    /// Subscribes to the events that are published from now on: one more
    /// subscription, behind the others.
    pub fn subscribe(&mut self) -> (subscriber: EventSubscriber)
        ensures
            final(self).senders().len() == old(self).senders().len() + 1,
            final(self).senders().drop_last() == old(self).senders(),
    {
        let (tx, rx) = event_channel();
        let ghost before = self.subscribers@;
        self.subscribers.push(tx);
        assert(self.subscribers@.drop_last() =~= before);
        EventSubscriber { rx }
    }

    /// Publishes an event: a copy is sent to every subscriber, in the order
    /// of the subscriptions, and the subscriptions whose receiver is gone are
    /// dropped as `keep_delivered` says. The others stay, in their order.
    pub fn publish(&mut self, event: StoreEvent)
        ensures
            exists|delivered: Seq<bool>|
                delivered.len() == old(self).senders().len() && final(self).senders() == kept(
                    old(self).senders(),
                    delivered,
                ),
    {
        let mut delivered: Vec<bool> = Vec::with_capacity(self.subscribers.len());
        let mut i: usize = 0;
        while i < self.subscribers.len()
            invariant
                i <= self.subscribers@.len(),
                delivered@.len() == i,
                self.subscribers@ == old(self).senders(),
            decreases self.subscribers@.len() - i,
        {
            delivered.push(send_event(&self.subscribers[i], event.clone()));
            i += 1;
        }
        self.keep_delivered(&delivered);
    }

    /// Keeps the subscriptions to which an event was delivered, in their
    /// order, and drops the others: `delivered` says of each subscription
    /// whether its send succeeded.
    pub fn keep_delivered(&mut self, delivered: &Vec<bool>)
        requires
            delivered@.len() == old(self).senders().len(),
        ensures
            final(self).senders() == kept(old(self).senders(), delivered@),
    {
        let ghost before = self.subscribers@;
        let ghost mask = delivered@;
        let mut i: usize = 0;
        let mut j: usize = 0;
        assert(before.take(0) =~= Seq::empty());
        assert(mask.take(0) =~= Seq::empty());
        assert(self.subscribers@.take(0) =~= Seq::empty());
        assert(self.subscribers@.skip(0) =~= before.skip(0));
        while j < delivered.len()
            invariant
                i <= j <= delivered@.len(),
                mask == delivered@,
                mask.len() == before.len(),
                self.subscribers@.len() - i == before.len() - j,
                self.subscribers@.take(i as int) == kept(before.take(j as int), mask.take(j as int)),
                self.subscribers@.skip(i as int) == before.skip(j as int),
            decreases delivered@.len() - j,
        {
            let ghost subs = self.subscribers@;
            assert(subs[i as int] == subs.skip(i as int)[0]);
            assert(before[j as int] == before.skip(j as int)[0]);
            assert(before.take(j + 1).drop_last() =~= before.take(j as int));
            assert(mask.take(j + 1).drop_last() =~= mask.take(j as int));
            assert(mask.take(j + 1).last() == mask[j as int]);
            assert(before.take(j + 1).last() == before[j as int]);
            if delivered[j] {
                proof {
                    assert(subs.take(i + 1) =~= subs.take(i as int).push(subs[i as int]));
                    assert(subs.skip(i + 1) =~= before.skip(j + 1)) by {
                        assert(subs.skip(i + 1) =~= subs.skip(i as int).skip(1));
                        assert(before.skip(j + 1) =~= before.skip(j as int).skip(1));
                    }
                }
                i += 1;
            } else {
                self.subscribers.remove(i);
                proof {
                    assert(self.subscribers@.take(i as int) =~= subs.take(i as int));
                    assert(self.subscribers@.skip(i as int) =~= before.skip(j + 1)) by {
                        assert(self.subscribers@.skip(i as int) =~= subs.skip(i as int).skip(1));
                        assert(before.skip(j + 1) =~= before.skip(j as int).skip(1));
                    }
                }
            }
            j += 1;
        }
        proof {
            assert(before.take(j as int) =~= before);
            assert(mask.take(j as int) =~= mask);
            assert(self.subscribers@.take(i as int) =~= self.subscribers@);
        }
    }

    /// The number of subscriptions.
    pub fn subscriber_count(&self) -> (n: usize)
        ensures
            n == self.senders().len(),
    {
        self.subscribers.len()
    }
}

} // verus!
