//! The session tracker: which clients are connected, and which contexts
//! each of them has created.

use crate::registry_types::{
    distinct_tags, lemma_put_tagged_distinct, lemma_remove_distinct, lemma_update_keeps_tags,
    put_tagged, tagged, tags_of,
};
use crate::text::{
    clone_opt_string, find_number_key, last_index_of, number_keys, opt_text, str_eq,
};
use crate::wire::now_unix_ms;
use vstd::prelude::*;

verus! {

/// A connected client.
#[derive(Debug)]
pub struct ClientSession {
    pub session_id: u64,
    pub client_tag: String,
    /// The address of the client's end of the connection.
    pub peer_addr: Option<String>,
    /// When the client connected, in milliseconds since the Unix epoch.
    pub connected_at: u64,
    /// When the client was last heard of.
    pub last_activity_at: u64,
    /// The contexts that the client has created.
    pub contexts_created: Vec<u64>,
}

/// What a `ClientSession` holds.
pub ghost struct ClientSessionView {
    pub session_id: u64,
    pub client_tag: Seq<char>,
    pub peer_addr: Option<Seq<char>>,
    pub connected_at: u64,
    pub last_activity_at: u64,
    pub contexts_created: Seq<u64>,
}

impl View for ClientSession {
    type V = ClientSessionView;

    open spec fn view(&self) -> ClientSessionView {
        ClientSessionView {
            session_id: self.session_id,
            client_tag: self.client_tag@,
            peer_addr: opt_text(self.peer_addr),
            connected_at: self.connected_at,
            last_activity_at: self.last_activity_at,
            contexts_created: self.contexts_created@,
        }
    }
}

impl Clone for ClientSession {
    fn clone(&self) -> (copy: Self)
        ensures
            copy@ == self@,
    {
        ClientSession {
            session_id: self.session_id,
            client_tag: self.client_tag.clone(),
            peer_addr: clone_opt_string(&self.peer_addr),
            connected_at: self.connected_at,
            last_activity_at: self.last_activity_at,
            contexts_created: self.contexts_created.clone(),
        }
    }
}

/// The sessions of a list, by their ids.
pub open spec fn sessions_view(sessions: Seq<(u64, ClientSession)>) -> Seq<(u64, ClientSessionView)> {
    Seq::new(sessions.len(), |i: int| (sessions[i].0, sessions[i].1@))
}

/// The list without the last pair with this key.
pub open spec fn remove_tagged<V>(list: Seq<(u64, V)>, key: u64) -> Seq<(u64, V)> {
    match last_index_of(tags_of(list), key) {
        Some(i) => list.remove(i),
        None => list,
    }
}

/// `remove_tagged`, as a function value.
pub open spec fn remove_tagged_fn() -> spec_fn(Seq<(u64, u64)>, u64) -> Seq<(u64, u64)> {
    |list: Seq<(u64, u64)>, key: u64| remove_tagged(list, key)
}

/// The session as it is registered at a time.
pub open spec fn new_session(
    session_id: u64,
    client_tag: Seq<char>,
    peer_addr: Option<Seq<char>>,
    now_ms: u64,
) -> ClientSessionView {
    ClientSessionView {
        session_id,
        client_tag,
        peer_addr,
        connected_at: now_ms,
        last_activity_at: now_ms,
        contexts_created: Seq::empty(),
    }
}

/// The tags of a list of sessions, without the empty tag and each once, in
/// the order of the sessions.
pub open spec fn active_tags(sessions: Seq<(u64, ClientSessionView)>) -> Seq<Seq<char>>
    decreases sessions.len(),
{
    if sessions.len() == 0 {
        Seq::empty()
    } else {
        let front = active_tags(sessions.drop_last());
        let tag = sessions.last().1.client_tag;
        if tag.len() == 0 || front.contains(tag) {
            front
        } else {
            front.push(tag)
        }
    }
}

/// What a session tracker holds.
pub ghost struct SessionTrackerView {
    /// The connected clients, by session id.
    pub sessions: Seq<(u64, ClientSessionView)>,
    /// The session that each live context belongs to, by context id.
    pub context_to_session: Seq<(u64, u64)>,
}

/// Tracks the connected clients and the contexts they have created. The
/// sessions are kept in the order in which they were registered and the live
/// contexts in the order in which they were created, and are listed in that
/// order.
pub struct SessionTracker {
    sessions: Vec<(u64, ClientSession)>,
    context_to_session: Vec<(u64, u64)>,
}

impl View for SessionTracker {
    type V = SessionTrackerView;

    closed spec fn view(&self) -> SessionTrackerView {
        SessionTrackerView {
            sessions: sessions_view(self.sessions@),
            context_to_session: self.context_to_session@,
        }
    }
}

/// The tracker after a context was put under a session: the context belongs
/// to the session, and the session, where it is connected, has it among its
/// contexts once.
pub open spec fn view_after_add_context(
    v: SessionTrackerView,
    session_id: u64,
    context_id: u64,
) -> SessionTrackerView {
    SessionTrackerView {
        sessions: match last_index_of(tags_of(v.sessions), session_id) {
            Some(i) => if v.sessions[i].1.contexts_created.contains(context_id) {
                v.sessions
            } else {
                v.sessions.update(
                    i,
                    (
                        v.sessions[i].0,
                        ClientSessionView {
                            contexts_created: v.sessions[i].1.contexts_created.push(context_id),
                            ..v.sessions[i].1
                        },
                    ),
                )
            },
            None => v.sessions,
        },
        context_to_session: put_tagged(v.context_to_session, context_id, session_id),
    }
}

/// The tracker after a session was registered at a time.
pub open spec fn view_after_register(
    v: SessionTrackerView,
    session_id: u64,
    client_tag: Seq<char>,
    peer_addr: Option<Seq<char>>,
    now_ms: u64,
) -> SessionTrackerView {
    SessionTrackerView {
        sessions: put_tagged(
            v.sessions,
            session_id,
            new_session(session_id, client_tag, peer_addr, now_ms),
        ),
        ..v
    }
}

/// The tracker after a session was heard of at a time.
pub open spec fn view_after_activity(v: SessionTrackerView, session_id: u64, now_ms: u64) -> SessionTrackerView {
    SessionTrackerView {
        sessions: match last_index_of(tags_of(v.sessions), session_id) {
            Some(i) => v.sessions.update(
                i,
                (
                    v.sessions[i].0,
                    ClientSessionView { last_activity_at: now_ms, ..v.sessions[i].1 },
                ),
            ),
            None => v.sessions,
        },
        ..v
    }
}

/// The tracker after a session was unregistered: the session is gone, and
/// its contexts are live no more.
pub open spec fn view_after_unregister(v: SessionTrackerView, session_id: u64) -> SessionTrackerView {
    match last_index_of(tags_of(v.sessions), session_id) {
        Some(i) => SessionTrackerView {
            sessions: v.sessions.remove(i),
            context_to_session: v.sessions[i].1.contexts_created.fold_left(
                v.context_to_session,
                remove_tagged_fn(),
            ),
        },
        None => v,
    }
}

/// Whether every session and every live context stands once in a tracker.
pub open spec fn tracked_once(v: SessionTrackerView) -> bool {
    distinct_tags(v.sessions) && distinct_tags(v.context_to_session)
}

/// Taking the pairs of some keys out of a list keeps every key standing
/// once.
pub proof fn lemma_remove_all_distinct(list: Seq<(u64, u64)>, keys: Seq<u64>)
    requires
        distinct_tags(list),
    ensures
        distinct_tags(keys.fold_left(list, remove_tagged_fn())),
    decreases keys.len(),
{
    if keys.len() > 0 {
        lemma_remove_all_distinct(list, keys.drop_last());
        let front = keys.drop_last().fold_left(list, remove_tagged_fn());
        crate::text::lemma_last_index_of(tags_of(front), keys.last());
        match last_index_of(tags_of(front), keys.last()) {
            Some(i) => {
                lemma_remove_distinct(front, i);
            },
            None => {},
        }
    }
}

/// Registering a session, hearing of one, putting a context under one and
/// unregistering one each keep every session and every live context
/// standing once.
pub proof fn lemma_tracker_keeps_once(
    v: SessionTrackerView,
    session_id: u64,
    client_tag: Seq<char>,
    peer_addr: Option<Seq<char>>,
    context_id: u64,
    now_ms: u64,
)
    requires
        tracked_once(v),
    ensures
        tracked_once(view_after_register(v, session_id, client_tag, peer_addr, now_ms)),
        tracked_once(view_after_activity(v, session_id, now_ms)),
        tracked_once(view_after_add_context(v, session_id, context_id)),
        tracked_once(view_after_unregister(v, session_id)),
{
    lemma_put_tagged_distinct(
        v.sessions,
        session_id,
        new_session(session_id, client_tag, peer_addr, now_ms),
    );
    lemma_put_tagged_distinct(v.context_to_session, context_id, session_id);
    crate::text::lemma_last_index_of(tags_of(v.sessions), session_id);
    match last_index_of(tags_of(v.sessions), session_id) {
        Some(i) => {
            lemma_update_keeps_tags(
                v.sessions,
                i,
                ClientSessionView { last_activity_at: now_ms, ..v.sessions[i].1 },
            );
            lemma_update_keeps_tags(
                v.sessions,
                i,
                ClientSessionView {
                    contexts_created: v.sessions[i].1.contexts_created.push(context_id),
                    ..v.sessions[i].1
                },
            );
            lemma_remove_distinct(v.sessions, i);
            lemma_remove_all_distinct(v.context_to_session, v.sessions[i].1.contexts_created);
        },
        None => {},
    }
}

/// Whether a list of numbers holds a number.
fn contains_u64(list: &Vec<u64>, x: u64) -> (found: bool)
    ensures
        found == list@.contains(x),
{
    let mut i: usize = 0;
    while i < list.len()
        invariant
            i <= list.len(),
            forall|j: int| 0 <= j < i ==> list@[j] != x,
        decreases list.len() - i,
    {
        if list[i] == x {
            return true;
        }
        i += 1;
    }
    false
}

/// Whether a list of texts holds a text.
fn contains_text(list: &Vec<String>, x: &str) -> (found: bool)
    ensures
        found == crate::metadata::texts(list@).contains(x@),
{
    let ghost tv = crate::metadata::texts(list@);
    let mut i: usize = 0;
    while i < list.len()
        invariant
            i <= list.len(),
            tv == crate::metadata::texts(list@),
            forall|j: int| 0 <= j < i ==> tv[j] != x@,
        decreases list.len() - i,
    {
        if str_eq(list[i].as_str(), x) {
            assert(tv[i as int] == x@);
            return true;
        }
        i += 1;
    }
    false
}

impl SessionTracker {
    /// A tracker without sessions.
    pub fn new() -> (tracker: SessionTracker)
        ensures
            tracker@.sessions.len() == 0,
            tracker@.context_to_session.len() == 0,
            tracked_once(tracker@),
    {
        SessionTracker { sessions: Vec::new(), context_to_session: Vec::new() }
    }

    fn find_session(&self, session_id: u64) -> (place: Option<usize>)
        ensures
            match place {
                Some(i) => i < self.sessions.len() && last_index_of(
                    tags_of(self@.sessions),
                    session_id,
                ) == Some(i as int),
                None => last_index_of(tags_of(self@.sessions), session_id) is None,
            },
    {
        assert(tags_of(self@.sessions) =~= number_keys(self.sessions@));
        find_number_key(&self.sessions, session_id)
    }

    fn find_context(&self, context_id: u64) -> (place: Option<usize>)
        ensures
            match place {
                Some(i) => i < self.context_to_session.len() && last_index_of(
                    tags_of(self@.context_to_session),
                    context_id,
                ) == Some(i as int),
                None => last_index_of(tags_of(self@.context_to_session), context_id) is None,
            },
    {
        assert(tags_of(self@.context_to_session) =~= number_keys(self.context_to_session@));
        find_number_key(&self.context_to_session, context_id)
    }

    /// Registers a session at the time `now_ms`, in the place of a session
    /// with the same id where there is one.
    pub fn register_at(
        &mut self,
        session_id: u64,
        client_tag: String,
        peer_addr: Option<String>,
        now_ms: u64,
    )
        ensures
            final(self)@ == view_after_register(
                old(self)@,
                session_id,
                client_tag@,
                opt_text(peer_addr),
                now_ms,
            ),
            tracked_once(old(self)@) ==> tracked_once(final(self)@),
    {
        proof {
            if tracked_once(self@) {
                lemma_tracker_keeps_once(
                    self@,
                    session_id,
                    client_tag@,
                    opt_text(peer_addr),
                    0,
                    now_ms,
                );
            }
        }
        let ghost before = sessions_view(self.sessions@);
        let session = ClientSession {
            session_id,
            client_tag,
            peer_addr,
            connected_at: now_ms,
            last_activity_at: now_ms,
            contexts_created: Vec::new(),
        };
        let ghost sv = session@;
        assert(sv.contexts_created =~= Seq::empty());
        match self.find_session(session_id) {
            Some(at) => {
                self.sessions[at] = (session_id, session);
                assert(sessions_view(self.sessions@) =~= before.update(at as int, (session_id, sv)));
            },
            None => {
                self.sessions.push((session_id, session));
                assert(sessions_view(self.sessions@) =~= before.push((session_id, sv)));
            },
        }
    }

    /// Registers a session now: see `register_at`.
    pub fn register(&mut self, session_id: u64, client_tag: String, peer_addr: Option<String>)
        ensures
            exists|now_ms: u64|
                final(self)@ == #[trigger] view_after_register(
                    old(self)@,
                    session_id,
                    client_tag@,
                    opt_text(peer_addr),
                    now_ms,
                ),
            tracked_once(old(self)@) ==> tracked_once(final(self)@),
    {
        let now_ms = now_unix_ms();
        self.register_at(session_id, client_tag, peer_addr, now_ms);
    }

    /// The address of the client of a session.
    pub fn get_peer_addr(&self, session_id: u64) -> (addr: Option<String>)
        ensures
            opt_text(addr) == match tagged(self@.sessions, session_id) {
                Some(s) => s.peer_addr,
                None => None,
            },
    {
        match self.find_session(session_id) {
            Some(i) => clone_opt_string(&self.sessions[i].1.peer_addr),
            None => None,
        }
    }

    /// Records that a session was heard of at the time `now_ms`.
    pub fn record_activity_at(&mut self, session_id: u64, now_ms: u64)
        ensures
            final(self)@ == view_after_activity(old(self)@, session_id, now_ms),
            tracked_once(old(self)@) ==> tracked_once(final(self)@),
    {
        proof {
            if tracked_once(self@) {
                lemma_tracker_keeps_once(self@, session_id, Seq::empty(), None, 0, now_ms);
            }
        }
        let ghost before = sessions_view(self.sessions@);
        if let Some(at) = self.find_session(session_id) {
            let mut session = self.sessions[at].1.clone();
            session.last_activity_at = now_ms;
            let ghost sv = session@;
            self.sessions[at] = (self.sessions[at].0, session);
            assert(sessions_view(self.sessions@) =~= before.update(
                at as int,
                (before[at as int].0, sv),
            ));
        }
    }

    /// Records that a session was heard of now: see `record_activity_at`.
    pub fn record_activity(&mut self, session_id: u64)
        ensures
            exists|now_ms: u64|
                final(self)@ == #[trigger] view_after_activity(old(self)@, session_id, now_ms),
            tracked_once(old(self)@) ==> tracked_once(final(self)@),
    {
        let now_ms = now_unix_ms();
        self.record_activity_at(session_id, now_ms);
    }

    /// Puts a context under a session: see `view_after_add_context`.
    pub fn add_context(&mut self, session_id: u64, context_id: u64)
        ensures
            final(self)@ == view_after_add_context(old(self)@, session_id, context_id),
            tracked_once(old(self)@) ==> tracked_once(final(self)@),
    {
        proof {
            if tracked_once(self@) {
                lemma_tracker_keeps_once(self@, session_id, Seq::empty(), None, context_id, 0);
            }
        }
        let ghost before = sessions_view(self.sessions@);
        let ghost ctx_before = self.context_to_session@;
        match self.find_context(context_id) {
            Some(at) => {
                self.context_to_session[at] = (context_id, session_id);
                assert(self.context_to_session@ =~= ctx_before.update(
                    at as int,
                    (context_id, session_id),
                ));
            },
            None => {
                self.context_to_session.push((context_id, session_id));
            },
        }
        if let Some(at) = self.find_session(session_id) {
            if !contains_u64(&self.sessions[at].1.contexts_created, context_id) {
                let mut session = self.sessions[at].1.clone();
                session.contexts_created.push(context_id);
                let ghost sv = session@;
                self.sessions[at] = (self.sessions[at].0, session);
                assert(sessions_view(self.sessions@) =~= before.update(
                    at as int,
                    (before[at as int].0, sv),
                ));
            }
        }
    }

    /// Unregisters a session and gives the contexts it had created: see
    /// `view_after_unregister`. Gives no contexts where the session is not
    /// registered.
    pub fn unregister(&mut self, session_id: u64) -> (contexts: Vec<u64>)
        ensures
            final(self)@ == view_after_unregister(old(self)@, session_id),
            contexts@ == match tagged(old(self)@.sessions, session_id) {
                Some(s) => s.contexts_created,
                None => Seq::empty(),
            },
            tracked_once(old(self)@) ==> tracked_once(final(self)@),
    {
        proof {
            if tracked_once(self@) {
                lemma_tracker_keeps_once(self@, session_id, Seq::empty(), None, 0, 0);
            }
        }
        let ghost before = sessions_view(self.sessions@);
        let at = match self.find_session(session_id) {
            Some(at) => at,
            None => {
                return Vec::new();
            },
        };
        let removed = self.sessions.remove(at);
        assert(sessions_view(self.sessions@) =~= before.remove(at as int));
        let contexts = removed.1.contexts_created;
        let ghost init = self.context_to_session@;
        let mut i: usize = 0;
        assert(contexts@.take(0) =~= Seq::empty());
        while i < contexts.len()
            invariant
                i <= contexts.len(),
                sessions_view(self.sessions@) == before.remove(at as int),
                self.context_to_session@ == contexts@.take(i as int).fold_left(
                    init,
                    remove_tagged_fn(),
                ),
            decreases contexts.len() - i,
        {
            assert(contexts@.take(i + 1).drop_last() =~= contexts@.take(i as int));
            if let Some(place) = self.find_context(contexts[i]) {
                self.context_to_session.remove(place);
            }
            i += 1;
        }
        assert(contexts@.take(i as int) =~= contexts@);
        contexts
    }

    /// The session that a context belongs to, if it is connected.
    pub fn get_session_for_context(&self, context_id: u64) -> (session: Option<ClientSession>)
        ensures
            match session {
                Some(s) => match tagged(self@.context_to_session, context_id) {
                    Some(id) => tagged(self@.sessions, id) == Some(s@),
                    None => false,
                },
                None => match tagged(self@.context_to_session, context_id) {
                    Some(id) => tagged(self@.sessions, id) is None,
                    None => true,
                },
            },
    {
        let session_id = match self.find_context(context_id) {
            Some(i) => self.context_to_session[i].1,
            None => {
                return None;
            },
        };
        match self.find_session(session_id) {
            Some(i) => Some(self.sessions[i].1.clone()),
            None => None,
        }
    }

    /// The connected sessions, in the order in which they registered.
    pub fn get_active_sessions(&self) -> (sessions: Vec<ClientSession>)
        ensures
            sessions@.len() == self@.sessions.len(),
            forall|i: int| 0 <= i < sessions@.len() ==> sessions@[i]@ == self@.sessions[i].1,
    {
        let mut out: Vec<ClientSession> = Vec::with_capacity(self.sessions.len());
        let mut i: usize = 0;
        while i < self.sessions.len()
            invariant
                i <= self.sessions.len(),
                out@.len() == i,
                forall|j: int| 0 <= j < i ==> out@[j]@ == self.sessions@[j].1@,
            decreases self.sessions.len() - i,
        {
            out.push(self.sessions[i].1.clone());
            i += 1;
        }
        out
    }

    /// The contexts that belong to a connected session.
    pub fn get_live_context_ids(&self) -> (ids: Vec<u64>)
        ensures
            ids@ == tags_of(self@.context_to_session),
    {
        let mut out: Vec<u64> = Vec::with_capacity(self.context_to_session.len());
        let mut i: usize = 0;
        while i < self.context_to_session.len()
            invariant
                i <= self.context_to_session.len(),
                out@.len() == i,
                forall|j: int| 0 <= j < i ==> out@[j] == self.context_to_session@[j].0,
            decreases self.context_to_session.len() - i,
        {
            out.push(self.context_to_session[i].0);
            i += 1;
        }
        assert(out@ =~= tags_of(self@.context_to_session));
        out
    }

    /// The tag of the client of a session.
    pub fn get_client_tag(&self, session_id: u64) -> (tag: Option<String>)
        ensures
            opt_text(tag) == match tagged(self@.sessions, session_id) {
                Some(s) => Some(s.client_tag),
                None => None,
            },
    {
        match self.find_session(session_id) {
            Some(i) => Some(self.sessions[i].1.client_tag.clone()),
            None => None,
        }
    }

    /// Whether a context belongs to a connected session.
    pub fn is_context_live(&self, context_id: u64) -> (live: bool)
        ensures
            live == tagged(self@.context_to_session, context_id) is Some,
    {
        self.find_context(context_id).is_some()
    }

    /// The tags of the connected clients: see `active_tags`.
    pub fn get_active_tags(&self) -> (tags: Vec<String>)
        ensures
            crate::metadata::texts(tags@) == active_tags(self@.sessions),
    {
        let ghost all = self@.sessions;
        let mut out: Vec<String> = Vec::new();
        let mut i: usize = 0;
        assert(all.take(0) =~= Seq::empty());
        assert(crate::metadata::texts(out@) =~= Seq::empty());
        while i < self.sessions.len()
            invariant
                i <= self.sessions.len(),
                all == sessions_view(self.sessions@),
                crate::metadata::texts(out@) == active_tags(all.take(i as int)),
            decreases self.sessions.len() - i,
        {
            assert(all.take(i + 1).drop_last() =~= all.take(i as int));
            let tag = &self.sessions[i].1.client_tag;
            let ghost before = crate::metadata::texts(out@);
            if tag.as_str().as_bytes().len() != 0 && !contains_text(&out, tag.as_str()) {
                out.push(tag.clone());
                assert(crate::metadata::texts(out@) =~= before.push(tag@));
            }
            i += 1;
        }
        assert(all.take(i as int) =~= all);
        out
    }
}

} // verus!
