//! Session registry, per-session duplex channels, and the relay state machine.
//!
//! Each client connection becomes a session: a fresh identifier, a bounded
//! inbound queue (client submissions travelling to the protocol engine) and a
//! bounded outbound queue (engine messages travelling back to the client as
//! framed events). The registry maps live session identifiers to their
//! sessions; the dispenser hands each newly minted session to the engine in
//! creation order. The contracts pin down the lifecycle: a submission for an
//! unknown identifier is refused without side effects, per-session delivery is
//! FIFO in both directions, the handshake event always precedes message
//! events, and teardown removes a session exactly once while leaving every
//! other session untouched.

use vstd::prelude::*;

use crate::queue::{MessageQueue, PopOutcome, PushOutcome, QueueModel};

verus! {

/// Model of one framed server-sent event.
pub ghost enum EventModel {
    /// The handshake event advertising the submission address.
    Endpoint(Seq<char>),
    /// One relayed message payload.
    Message(Seq<char>),
}

/// Model of one live session.
pub ghost struct SessionModel {
    /// Client submissions travelling to the protocol engine.
    pub inbound: QueueModel,
    /// Engine messages travelling to the client.
    pub outbound: QueueModel,
    /// Whether the handshake event has been emitted on the stream.
    pub handshake_sent: bool,
    /// Every event emitted on the stream so far, in order.
    pub emitted: Seq<EventModel>,
}

/// The data line of the handshake event: the submission path with the session
/// identifier as its query parameter.
pub open spec fn endpoint_payload(post_path: Seq<char>, id: Seq<char>) -> Seq<char> {
    post_path + "?sessionId="@ + id
}

/// Well-formedness of a session whose handshake payload is `payload` and whose
/// queues hold `cap` slots: both queues are well-formed, and the emitted
/// events are exactly the handshake followed by the delivered outbound
/// messages in arrival order.
pub open spec fn session_wf(s: SessionModel, payload: Seq<char>, cap: nat) -> bool {
    &&& s.inbound.wf()
    &&& s.outbound.wf()
    &&& s.inbound.capacity == cap
    &&& s.outbound.capacity == cap
    &&& if s.handshake_sent {
        &&& s.emitted.len() == 1 + s.outbound.delivered()
        &&& s.emitted[0] == EventModel::Endpoint(payload)
        &&& forall|j: int|
            1 <= j < s.emitted.len() ==> s.emitted[j] == EventModel::Message(
                s.outbound.arrived[j - 1],
            )
    } else {
        &&& s.emitted == Seq::<EventModel>::empty()
        &&& s.outbound.delivered() == 0
    }
}

/// One session's duplex channel: its identifier, the two bounded queues, and
/// the state of its event stream.
pub struct SseTransport {
    session_id: String,
    inbound: MessageQueue,
    outbound: MessageQueue,
    handshake_sent: bool,
    emitted: Ghost<Seq<EventModel>>,
}

impl View for SseTransport {
    type V = SessionModel;

    closed spec fn view(&self) -> SessionModel {
        SessionModel {
            inbound: self.inbound@,
            outbound: self.outbound@,
            handshake_sent: self.handshake_sent,
            emitted: self.emitted@,
        }
    }
}

impl SseTransport {
    /// The identifier this session was minted with.
    pub closed spec fn id(&self) -> Seq<char> {
        self.session_id@
    }

    /// A fresh session under `id`: both queues empty and open, with
    /// `capacity` slots each, no handshake emitted yet.
    pub fn new(id: String, capacity: usize) -> (r: SseTransport)
        requires
            capacity >= 1,
        ensures
            r.id() == id@,
            r@ == fresh_session(capacity as nat),
    {
        SseTransport {
            session_id: id,
            inbound: MessageQueue::new(capacity),
            outbound: MessageQueue::new(capacity),
            handshake_sent: false,
            emitted: Ghost(Seq::empty()),
        }
    }
}

/// The process-wide mapping from live session identifier to session.
pub struct Registry {
    entries: Vec<SseTransport>,
}

/// The association an entry sequence denotes, later entries overriding
/// earlier ones with the same identifier.
pub closed spec fn map_of(s: Seq<SseTransport>) -> Map<Seq<char>, SessionModel>
    decreases s.len(),
{
    if s.len() == 0 {
        Map::empty()
    } else {
        map_of(s.drop_last()).insert(s.last().id(), s.last()@)
    }
}

/// No two entries share an identifier.
pub closed spec fn distinct_ids(s: Seq<SseTransport>) -> bool {
    forall|i: int, j: int| 0 <= i < j < s.len() ==> s[i].id() != s[j].id()
}

proof fn lemma_map_of_contains(s: Seq<SseTransport>, k: Seq<char>)
    ensures
        map_of(s).contains_key(k) <==> exists|i: int| 0 <= i < s.len() && s[i].id() == k,
    decreases s.len(),
{
    if s.len() > 0 {
        lemma_map_of_contains(s.drop_last(), k);
        if map_of(s).contains_key(k) {
            if s.last().id() != k {
                let i = choose|i: int| 0 <= i < s.drop_last().len() && s.drop_last()[i].id() == k;
                assert(s[i].id() == k);
            }
        }
        if exists|i: int| 0 <= i < s.len() && s[i].id() == k {
            let i = choose|i: int| 0 <= i < s.len() && s[i].id() == k;
            if i < s.len() - 1 {
                assert(s.drop_last()[i].id() == k);
            }
        }
    }
}

proof fn lemma_map_of_index(s: Seq<SseTransport>, i: int)
    requires
        distinct_ids(s),
        0 <= i < s.len(),
    ensures
        map_of(s).contains_key(s[i].id()),
        map_of(s)[s[i].id()] == s[i]@,
    decreases s.len(),
{
    assert(distinct_ids(s.drop_last()));
    if i == s.len() - 1 {
        lemma_map_of_contains(s, s[i].id());
    } else {
        lemma_map_of_index(s.drop_last(), i);
        assert(s.drop_last()[i] == s[i]);
        assert(s.last().id() != s[i].id());
    }
}

proof fn lemma_map_of_finite_len(s: Seq<SseTransport>)
    requires
        distinct_ids(s),
    ensures
        map_of(s).dom().finite(),
        map_of(s).len() == s.len(),
    decreases s.len(),
{
    if s.len() > 0 {
        assert(distinct_ids(s.drop_last()));
        lemma_map_of_finite_len(s.drop_last());
        lemma_map_of_contains(s.drop_last(), s.last().id());
        assert(forall|i: int|
            0 <= i < s.drop_last().len() ==> s.drop_last()[i].id() != s.last().id());
        assert(!map_of(s.drop_last()).contains_key(s.last().id()));
    }
}

proof fn lemma_map_of_update(s: Seq<SseTransport>, i: int, e: SseTransport)
    requires
        distinct_ids(s),
        0 <= i < s.len(),
        e.id() == s[i].id(),
    ensures
        distinct_ids(s.update(i, e)),
        map_of(s.update(i, e)) == map_of(s).insert(e.id(), e@),
    decreases s.len(),
{
    let t = s.update(i, e);
    assert forall|a: int, b: int| 0 <= a < b < t.len() implies t[a].id() != t[b].id() by {
        assert(s[a].id() != s[b].id());
    }
    if i == s.len() - 1 {
        assert(t.drop_last() =~= s.drop_last());
        assert(map_of(t) =~= map_of(s).insert(e.id(), e@));
    } else {
        assert(distinct_ids(s.drop_last()));
        assert(s.drop_last()[i] == s[i]);
        lemma_map_of_update(s.drop_last(), i, e);
        assert(t.drop_last() =~= s.drop_last().update(i, e));
        assert(t.last() == s.last());
        assert(map_of(t) == map_of(s.drop_last()).insert(e.id(), e@).insert(
            s.last().id(),
            s.last()@,
        ));
        assert(s.last().id() != e.id());
        assert(map_of(s.drop_last()).insert(e.id(), e@).insert(s.last().id(), s.last()@)
            =~= map_of(s.drop_last()).insert(s.last().id(), s.last()@).insert(e.id(), e@));
        assert(map_of(t) =~= map_of(s).insert(e.id(), e@));
    }
}

proof fn lemma_map_of_push(s: Seq<SseTransport>, e: SseTransport)
    ensures
        map_of(s.push(e)) == map_of(s).insert(e.id(), e@),
{
    assert(s.push(e).drop_last() =~= s);
    assert(s.push(e).last() == e);
}

proof fn lemma_map_of_remove(s: Seq<SseTransport>, i: int)
    requires
        distinct_ids(s),
        0 <= i < s.len(),
    ensures
        distinct_ids(s.remove(i)),
        map_of(s.remove(i)) == map_of(s).remove(s[i].id()),
    decreases s.len(),
{
    let t = s.remove(i);
    assert forall|a: int, b: int| 0 <= a < b < t.len() implies t[a].id() != t[b].id() by {
        if a < i && b < i {
            assert(t[a] == s[a] && t[b] == s[b]);
        } else if a < i {
            assert(t[a] == s[a] && t[b] == s[b + 1]);
        } else {
            assert(t[a] == s[a + 1] && t[b] == s[b + 1]);
        }
    }
    if i == s.len() - 1 {
        assert(t =~= s.drop_last());
        lemma_map_of_contains(s.drop_last(), s.last().id());
        assert(forall|j: int|
            0 <= j < s.drop_last().len() ==> s.drop_last()[j].id() != s.last().id());
        assert(!map_of(s.drop_last()).contains_key(s.last().id()));
        assert(map_of(s).remove(s.last().id()) =~= map_of(s.drop_last()));
    } else {
        assert(distinct_ids(s.drop_last()));
        assert(s.drop_last()[i] == s[i]);
        lemma_map_of_remove(s.drop_last(), i);
        assert(t.drop_last() =~= s.drop_last().remove(i));
        assert(t.last() == s.last());
        assert(map_of(t) == map_of(s.drop_last()).remove(s[i].id()).insert(
            s.last().id(),
            s.last()@,
        ));
        assert(s.last().id() != s[i].id());
        assert(map_of(s.drop_last()).remove(s[i].id()).insert(s.last().id(), s.last()@)
            =~= map_of(s.drop_last()).insert(s.last().id(), s.last()@).remove(s[i].id()));
        assert(map_of(t) =~= map_of(s).remove(s[i].id()));
    }
}

impl View for Registry {
    type V = Map<Seq<char>, SessionModel>;

    closed spec fn view(&self) -> Map<Seq<char>, SessionModel> {
        map_of(self.entries@)
    }
}

impl Registry {
    /// Entries never share an identifier.
    pub closed spec fn wf(&self) -> bool {
        distinct_ids(self.entries@)
    }

    /// An empty registry.
    pub fn new() -> (r: Registry)
        ensures
            r.wf(),
            r@ == Map::<Seq<char>, SessionModel>::empty(),
            r@.dom().finite(),
    {
        let r = Registry { entries: Vec::new() };
        proof {
            lemma_map_of_finite_len(r.entries@);
        }
        r
    }

    /// The number of live sessions.
    pub fn len(&self) -> (r: usize)
        requires
            self.wf(),
        ensures
            r == self@.len(),
            self@.dom().finite(),
    {
        proof {
            lemma_map_of_finite_len(self.entries@);
        }
        self.entries.len()
    }

    /// The index of the entry registered under `id`, if any.
    fn find(&self, id: &String) -> (r: Option<usize>)
        requires
            self.wf(),
        ensures
            match r {
                Some(i) => {
                    &&& i < self.entries@.len()
                    &&& self.entries@[i as int].id() == id@
                    &&& self@.contains_key(id@)
                    &&& self@[id@] == self.entries@[i as int]@
                },
                None => !self@.contains_key(id@),
            },
    {
        let n = self.entries.len();
        let mut i: usize = 0;
        while i < n
            invariant
                n == self.entries@.len(),
                i <= n,
                forall|j: int| 0 <= j < i ==> self.entries@[j].id() != id@,
                self.wf(),
            decreases n - i,
        {
            if self.entries[i].session_id == *id {
                proof {
                    lemma_map_of_index(self.entries@, i as int);
                }
                return Some(i);
            }
            i = i + 1;
        }
        proof {
            lemma_map_of_contains(self.entries@, id@);
        }
        None
    }

    /// Whether a session is registered under `id`.
    pub fn contains(&self, id: &String) -> (r: bool)
        requires
            self.wf(),
        ensures
            r == self@.contains_key(id@),
    {
        match self.find(id) {
            Some(_) => true,
            None => false,
        }
    }

    /// The session registered under `id`, or nothing: a read-only lookup
    /// with no side effect.
    pub fn lookup(&self, id: &String) -> (r: Option<&SseTransport>)
        requires
            self.wf(),
        ensures
            match r {
                Some(t) => {
                    &&& self@.contains_key(id@)
                    &&& t.id() == id@
                    &&& t@ == self@[id@]
                },
                None => !self@.contains_key(id@),
            },
    {
        match self.find(id) {
            Some(i) => Some(&self.entries[i]),
            None => None,
        }
    }

    /// Insert a session unconditionally. A duplicate identifier replaces the
    /// earlier entry rather than corrupting the mapping.
    pub fn register(&mut self, entry: SseTransport)
        requires
            old(self).wf(),
        ensures
            final(self).wf(),
            final(self)@ == old(self)@.insert(entry.id(), entry@),
    {
        let found = self.find(&entry.session_id);
        match found {
            Some(i) => {
                proof {
                    lemma_map_of_update(self.entries@, i as int, entry);
                }
                self.entries.set(i, entry);
            },
            None => {
                proof {
                    lemma_map_of_push(self.entries@, entry);
                    lemma_map_of_contains(self.entries@, entry.id());
                    assert forall|a: int, b: int|
                        0 <= a < b < self.entries@.push(entry).len() implies self.entries@.push(
                        entry,
                    )[a].id() != self.entries@.push(entry)[b].id() by {
                        if b < self.entries@.len() {
                            assert(self.entries@[a].id() != self.entries@[b].id());
                        }
                    }
                }
                self.entries.push(entry);
            },
        }
    }

    /// Remove the entry at a known index.
    fn take_at(&mut self, i: usize) -> (r: SseTransport)
        requires
            old(self).wf(),
            i < old(self).entries@.len(),
        ensures
            final(self).wf(),
            r == old(self).entries@[i as int],
            final(self)@ == old(self)@.remove(r.id()),
            final(self).entries@ == old(self).entries@.remove(i as int),
    {
        proof {
            lemma_map_of_remove(self.entries@, i as int);
        }
        self.entries.remove(i)
    }

    /// Remove the session registered under `id`; removing an absent
    /// identifier is a no-op. Every other entry is untouched.
    pub fn remove(&mut self, id: &String)
        requires
            old(self).wf(),
        ensures
            final(self).wf(),
            final(self)@ == old(self)@.remove(id@),
    {
        let found = self.find(id);
        match found {
            Some(i) => {
                proof {
                    lemma_map_of_remove(self.entries@, i as int);
                }
                let _ = self.entries.remove(i);
            },
            None => {
                proof {
                    assert(old(self)@.remove(id@) =~= old(self)@);
                }
            },
        }
    }
}

/// One framed server-sent event, ready for the wire.
pub enum SseEvent {
    /// The handshake event: its data line is the submission address.
    Endpoint(String),
    /// A relayed message: its data line is the canonically encoded payload.
    Message(String),
}

impl View for SseEvent {
    type V = EventModel;

    open spec fn view(&self) -> EventModel {
        match self {
            SseEvent::Endpoint(s) => EventModel::Endpoint(s@),
            SseEvent::Message(s) => EventModel::Message(s@),
        }
    }
}

/// What opening a stream connection did.
pub enum OpenOutcome {
    /// A session was minted, registered, and handed to the dispenser.
    Opened(String),
    /// The adopting side has shut down; nothing was registered.
    Unavailable,
}

/// What a submission did.
pub enum SubmitOutcome {
    /// The message was queued for the protocol engine.
    Accepted,
    /// No session is registered under that identifier.
    NotFound,
    /// The session exists but its inbound side is closed.
    Gone,
    /// The inbound queue is at capacity; the caller suspends and retries.
    Full,
}

/// What an engine send onto a session's outbound queue did.
pub enum SendOutcome {
    /// The message was queued for the client.
    Sent,
    /// The outbound queue is at capacity; the caller suspends and retries.
    Full,
    /// The outbound side is closed.
    Closed,
    /// No session is registered under that identifier.
    NotFound,
}

/// What an engine read from a session's inbound queue yielded.
pub enum RecvOutcome {
    /// The earliest undelivered client submission.
    Delivered(String),
    /// Nothing queued yet; the caller suspends.
    Pending,
    /// The inbound side is closed and drained: end of stream.
    Ended,
    /// No session is registered under that identifier.
    NotFound,
}

/// One step of a session's event stream.
pub enum StreamStep {
    /// The next event to frame onto the wire.
    Event(SseEvent),
    /// Nothing to emit yet; the pump suspends.
    Pending,
    /// The outbound queue closed and drained; the session was deregistered.
    End,
    /// No session is registered under that identifier.
    Unknown,
}

/// The submission decision as a function of the registry state alone: unknown
/// identifiers are refused, a closed inbound side is gone, a full queue
/// suspends, and otherwise the message is accepted.
pub open spec fn submit_decision(m: Map<Seq<char>, SessionModel>, id: Seq<char>) -> SubmitOutcome {
    if !m.contains_key(id) {
        SubmitOutcome::NotFound
    } else if m[id].inbound.closed {
        SubmitOutcome::Gone
    } else if m[id].inbound.pending.len() >= m[id].inbound.capacity {
        SubmitOutcome::Full
    } else {
        SubmitOutcome::Accepted
    }
}

impl SubmitOutcome {
    /// The HTTP status this outcome is reported as. A full queue is a
    /// transient condition: the boundary suspends and retries rather than
    /// responding, and reports it as a server-side transient failure only if
    /// it must respond at once.
    pub fn status_code(&self) -> (r: u16)
        ensures
            self is Accepted ==> r == 202,
            self is NotFound ==> r == 404,
            self is Gone ==> r == 410,
            self is Full ==> r == 503,
    {
        match self {
            SubmitOutcome::Accepted => 202,
            SubmitOutcome::NotFound => 404,
            SubmitOutcome::Gone => 410,
            SubmitOutcome::Full => 503,
        }
    }
}

/// A session as minted at stream-open time: both queues empty and open, no
/// handshake emitted yet.
pub open spec fn fresh_session(cap: nat) -> SessionModel {
    SessionModel {
        inbound: QueueModel {
            arrived: Seq::empty(),
            pending: Seq::empty(),
            capacity: cap,
            closed: false,
        },
        outbound: QueueModel {
            arrived: Seq::empty(),
            pending: Seq::empty(),
            capacity: cap,
            closed: false,
        },
        handshake_sent: false,
        emitted: Seq::empty(),
    }
}

/// `s` with one more message accepted onto its inbound queue.
pub open spec fn with_inbound_push(s: SessionModel, msg: Seq<char>) -> SessionModel {
    SessionModel {
        inbound: QueueModel {
            arrived: s.inbound.arrived.push(msg),
            pending: s.inbound.pending.push(msg),
            capacity: s.inbound.capacity,
            closed: s.inbound.closed,
        },
        ..s
    }
}

/// `s` with one inbound message handed to the engine.
pub open spec fn with_inbound_pop(s: SessionModel) -> SessionModel {
    SessionModel {
        inbound: QueueModel {
            arrived: s.inbound.arrived,
            pending: s.inbound.pending.drop_first(),
            capacity: s.inbound.capacity,
            closed: s.inbound.closed,
        },
        ..s
    }
}

/// `s` with one more message accepted onto its outbound queue.
pub open spec fn with_outbound_push(s: SessionModel, msg: Seq<char>) -> SessionModel {
    SessionModel {
        outbound: QueueModel {
            arrived: s.outbound.arrived.push(msg),
            pending: s.outbound.pending.push(msg),
            capacity: s.outbound.capacity,
            closed: s.outbound.closed,
        },
        ..s
    }
}

/// `s` after the handshake event was emitted.
pub open spec fn with_handshake(s: SessionModel, payload: Seq<char>) -> SessionModel {
    SessionModel {
        handshake_sent: true,
        emitted: s.emitted.push(EventModel::Endpoint(payload)),
        ..s
    }
}

/// `s` after its earliest undelivered outbound message was emitted.
pub open spec fn with_outbound_emit(s: SessionModel) -> SessionModel {
    SessionModel {
        outbound: QueueModel {
            arrived: s.outbound.arrived,
            pending: s.outbound.pending.drop_first(),
            capacity: s.outbound.capacity,
            closed: s.outbound.closed,
        },
        emitted: s.emitted.push(EventModel::Message(s.outbound.pending[0])),
        ..s
    }
}

/// `s` with both queue sides closed, as when the engine releases its ends.
pub open spec fn with_ends_closed(s: SessionModel) -> SessionModel {
    SessionModel {
        inbound: QueueModel { closed: true, ..s.inbound },
        outbound: QueueModel { closed: true, ..s.outbound },
        ..s
    }
}

/// A freshly minted session is well-formed.
proof fn lemma_fresh_session_wf(payload: Seq<char>, cap: nat)
    requires
        cap >= 1,
    ensures
        session_wf(fresh_session(cap), payload, cap),
{
    let s = fresh_session(cap);
    assert(s.inbound.pending =~= s.inbound.arrived.subrange(
        s.inbound.delivered(),
        s.inbound.arrived.len() as int,
    ));
    assert(s.outbound.pending =~= s.outbound.arrived.subrange(
        s.outbound.delivered(),
        s.outbound.arrived.len() as int,
    ));
}

/// The relay: the registry of live sessions, the dispenser queue of sessions
/// awaiting adoption by the protocol engine, and the submission path the
/// handshake advertises.
pub struct AuthSseServer {
    registry: Registry,
    pending: Vec<String>,
    dispenser_closed: bool,
    post_path: String,
    capacity: usize,
}

impl AuthSseServer {
    /// The live sessions, by identifier.
    pub closed spec fn sessions(&self) -> Map<Seq<char>, SessionModel> {
        self.registry@
    }

    /// Identifiers of sessions minted but not yet adopted, oldest first.
    pub closed spec fn pending_ids(&self) -> Seq<Seq<char>> {
        self.pending.deep_view()
    }

    /// Whether the dispenser has permanently stopped accepting sessions.
    pub closed spec fn dispenser_is_closed(&self) -> bool {
        self.dispenser_closed
    }

    /// The submission path the handshake advertises.
    pub closed spec fn path(&self) -> Seq<char> {
        self.post_path@
    }

    /// The slot count of every session queue.
    pub closed spec fn cap(&self) -> nat {
        self.capacity as nat
    }

    /// Registry identifiers are distinct and every live session is
    /// well-formed against its own handshake payload.
    pub closed spec fn wf(&self) -> bool {
        &&& self.registry.wf()
        &&& self.capacity >= 1
        &&& self.sessions().dom().finite()
        &&& forall|k: Seq<char>| #[trigger]
            self.sessions().contains_key(k) ==> session_wf(
                self.sessions()[k],
                endpoint_payload(self.path(), k),
                self.cap(),
            )
    }

    /// A relay with no sessions, dispensing to an engine that has not yet
    /// stopped, advertising the default submission path.
    pub fn new() -> (r: AuthSseServer)
        ensures
            r.wf(),
            r.sessions() == Map::<Seq<char>, SessionModel>::empty(),
            r.pending_ids() == Seq::<Seq<char>>::empty(),
            !r.dispenser_is_closed(),
            r.path() == "/message"@,
            r.cap() == 64,
    {
        let r = AuthSseServer {
            registry: Registry::new(),
            pending: Vec::new(),
            dispenser_closed: false,
            post_path: String::from_str("/message"),
            capacity: 64,
        };
        proof {
            assert(r.pending_ids() =~= Seq::<Seq<char>>::empty());
        }
        r
    }

    /// How many sessions are live.
    pub fn session_count(&self) -> (r: usize)
        requires
            self.wf(),
        ensures
            r == self.sessions().len(),
    {
        self.registry.len()
    }

    /// Whether a session is registered under `id`.
    pub fn is_registered(&self, id: &String) -> (r: bool)
        requires
            self.wf(),
        ensures
            r == self.sessions().contains_key(id@),
    {
        self.registry.contains(id)
    }

    /// Open a new stream connection: mint a fresh identifier, register the
    /// session, and queue it for adoption. If the dispenser has shut down,
    /// nothing is registered and the connection is refused.
    pub fn open_session(&mut self) -> (r: OpenOutcome)
        requires
            old(self).wf(),
        ensures
            final(self).wf(),
            final(self).path() == old(self).path(),
            final(self).cap() == old(self).cap(),
            final(self).dispenser_is_closed() == old(self).dispenser_is_closed(),
            r is Unavailable <==> old(self).dispenser_is_closed(),
            r is Unavailable ==> final(self).sessions() == old(self).sessions() && final(self).pending_ids() == old(self).pending_ids(),
            r matches OpenOutcome::Opened(id) ==> {
                &&& id@.len() == 32
                &&& crate::token::all_hex(id@)
                &&& final(self).sessions() == old(self).sessions().insert(
                    id@,
                    fresh_session(old(self).cap()),
                )
                &&& final(self).pending_ids() == old(self).pending_ids().push(id@)
            },
    {
        if self.dispenser_closed {
            return OpenOutcome::Unavailable;
        }
        let id = generate_session_id();
        let entry = SseTransport::new(id.clone(), self.capacity);
        self.registry.register(entry);
        self.pending.push(id.clone());
        proof {
            assert(self.pending_ids() =~= old(self).pending_ids().push(id@));
            lemma_fresh_session_wf(endpoint_payload(self.path(), id@), self.cap());
            assert forall|k: Seq<char>| #[trigger] self.sessions().contains_key(k) implies
                session_wf(self.sessions()[k], endpoint_payload(self.path(), k), self.cap()) by {
                if k != id@ {
                    assert(old(self).sessions().contains_key(k));
                }
            }
        }
        OpenOutcome::Opened(id)
    }

    /// Accept one client submission for the session registered under `id` and
    /// queue it for the protocol engine. An unknown identifier is refused
    /// without any side effect: no session is ever created here.
    pub fn submit(&mut self, id: &String, message: String) -> (r: SubmitOutcome)
        requires
            old(self).wf(),
        ensures
            final(self).wf(),
            final(self).path() == old(self).path(),
            final(self).cap() == old(self).cap(),
            final(self).dispenser_is_closed() == old(self).dispenser_is_closed(),
            final(self).pending_ids() == old(self).pending_ids(),
            r == submit_decision(old(self).sessions(), id@),
            r is Accepted ==> final(self).sessions() == old(self).sessions().insert(
                id@,
                with_inbound_push(old(self).sessions()[id@], message@),
            ),
            !(r is Accepted) ==> final(self).sessions() == old(self).sessions(),
    {
        let found = self.registry.find(id);
        match found {
            None => SubmitOutcome::NotFound,
            Some(i) => {
                let mut entry = self.registry.take_at(i);
                let outcome = entry.inbound.push(message);
                let ghost mid = old(self).sessions();
                self.registry.register(entry);
                proof {
                    assert(self.sessions() =~= mid.insert(id@, entry@));
                    if !(outcome is Queued) {
                        assert(entry@ == mid[id@]);
                        assert(self.sessions() =~= mid);
                    }
                    assert forall|k: Seq<char>| #[trigger] self.sessions().contains_key(k) implies
                        session_wf(self.sessions()[k], endpoint_payload(self.path(), k), self.cap())
                        by {
                        if k != id@ {
                            assert(mid.contains_key(k));
                        }
                    }
                }
                match outcome {
                    PushOutcome::Queued => SubmitOutcome::Accepted,
                    PushOutcome::Full => SubmitOutcome::Full,
                    PushOutcome::Closed => SubmitOutcome::Gone,
                }
            },
        }
    }

    /// Produce the next event of a session's stream. The handshake event is
    /// always emitted first; thereafter each outbound message is emitted as
    /// its own message event, in arrival order. When the outbound queue has
    /// closed and drained, the session is deregistered — exactly here, exactly
    /// once — and the stream ends.
    pub fn next_stream_event(&mut self, id: &String) -> (r: StreamStep)
        requires
            old(self).wf(),
        ensures
            final(self).wf(),
            final(self).path() == old(self).path(),
            final(self).cap() == old(self).cap(),
            final(self).dispenser_is_closed() == old(self).dispenser_is_closed(),
            final(self).pending_ids() == old(self).pending_ids(),
            !old(self).sessions().contains_key(id@) ==> r is Unknown && final(self).sessions()
                == old(self).sessions(),
            old(self).sessions().contains_key(id@) ==> {
                let s = old(self).sessions()[id@];
                let payload = endpoint_payload(old(self).path(), id@);
                &&& !s.handshake_sent ==> {
                    &&& r matches StreamStep::Event(e)
                    &&& (r matches StreamStep::Event(e) ==> e@ == EventModel::Endpoint(payload))
                    &&& final(self).sessions() == old(self).sessions().insert(
                        id@,
                        with_handshake(s, payload),
                    )
                }
                &&& s.handshake_sent && s.outbound.pending.len() > 0 ==> {
                    &&& r matches StreamStep::Event(e)
                    &&& (r matches StreamStep::Event(e) ==> e@ == EventModel::Message(
                        s.outbound.pending[0],
                    ))
                    &&& s.outbound.pending[0] == s.outbound.arrived[s.outbound.delivered()]
                    &&& final(self).sessions() == old(self).sessions().insert(
                        id@,
                        with_outbound_emit(s),
                    )
                }
                &&& s.handshake_sent && s.outbound.pending.len() == 0 && s.outbound.closed ==> {
                    &&& r is End
                    &&& final(self).sessions() == old(self).sessions().remove(id@)
                }
                &&& s.handshake_sent && s.outbound.pending.len() == 0 && !s.outbound.closed ==> {
                    &&& r is Pending
                    &&& final(self).sessions() == old(self).sessions()
                }
            },
    {
        let found = self.registry.find(id);
        match found {
            None => StreamStep::Unknown,
            Some(i) => {
                let mut entry = self.registry.take_at(i);
                let ghost mid = old(self).sessions();
                let ghost s = mid[id@];
                let ghost payload = endpoint_payload(old(self).path(), id@);
                if !entry.handshake_sent {
                    let mut data = self.post_path.clone();
                    data.append("?sessionId=");
                    data.append(id.as_str());
                    proof {
                        assert(data@ =~= payload);
                    }
                    entry.handshake_sent = true;
                    entry.emitted = Ghost(entry.emitted@.push(EventModel::Endpoint(data@)));
                    proof {
                        assert(entry@ == with_handshake(s, payload));
                    }
                    self.registry.register(entry);
                    proof {
                        assert(self.sessions() =~= mid.insert(id@, with_handshake(s, payload)));
                        self.lemma_wf_after_insert(mid, id@, with_handshake(s, payload));
                    }
                    StreamStep::Event(SseEvent::Endpoint(data))
                } else {
                    let popped = entry.outbound.pop();
                    match popped {
                        PopOutcome::Delivered(m) => {
                            entry.emitted = Ghost(entry.emitted@.push(EventModel::Message(m@)));
                            proof {
                                assert(entry@ == with_outbound_emit(s));
                            }
                            self.registry.register(entry);
                            proof {
                                assert(self.sessions() =~= mid.insert(id@, with_outbound_emit(s)));
                                self.lemma_wf_after_insert(mid, id@, with_outbound_emit(s));
                            }
                            StreamStep::Event(SseEvent::Message(m))
                        },
                        PopOutcome::Ended => {
                            proof {
                                self.lemma_wf_after_drop(mid, id@);
                            }
                            StreamStep::End
                        },
                        PopOutcome::Pending => {
                            self.registry.register(entry);
                            proof {
                                assert(entry@ == s);
                                assert(self.sessions() =~= mid);
                                assert(self.sessions() =~= mid.insert(id@, s));
                                self.lemma_wf_after_insert(mid, id@, s);
                            }
                            StreamStep::Pending
                        },
                    }
                }
            },
        }
    }

    /// Re-establish session well-formedness after one session changed.
    proof fn lemma_wf_after_insert(
        &self,
        mid: Map<Seq<char>, SessionModel>,
        id: Seq<char>,
        s: SessionModel,
    )
        requires
            self.sessions() == mid.insert(id, s),
            self.sessions().dom().finite(),
            self.registry.wf(),
            self.capacity >= 1,
            session_wf(s, endpoint_payload(self.path(), id), self.cap()),
            forall|k: Seq<char>| #[trigger]
                mid.contains_key(k) ==> session_wf(
                    mid[k],
                    endpoint_payload(self.path(), k),
                    self.cap(),
                ),
        ensures
            self.wf(),
    {
        assert forall|k: Seq<char>| #[trigger] self.sessions().contains_key(k) implies session_wf(
            self.sessions()[k],
            endpoint_payload(self.path(), k),
            self.cap(),
        ) by {
            if k != id {
                assert(mid.contains_key(k));
            }
        }
    }

    /// Re-establish session well-formedness after one session was removed.
    proof fn lemma_wf_after_drop(&self, mid: Map<Seq<char>, SessionModel>, id: Seq<char>)
        requires
            self.sessions() == mid.remove(id),
            self.sessions().dom().finite(),
            self.registry.wf(),
            self.capacity >= 1,
            forall|k: Seq<char>| #[trigger]
                mid.contains_key(k) ==> session_wf(
                    mid[k],
                    endpoint_payload(self.path(), k),
                    self.cap(),
                ),
        ensures
            self.wf(),
    {
        assert forall|k: Seq<char>| #[trigger] self.sessions().contains_key(k) implies session_wf(
            self.sessions()[k],
            endpoint_payload(self.path(), k),
            self.cap(),
        ) by {
            assert(mid.contains_key(k));
        }
    }

    /// Queue a message from the protocol engine onto a session's outbound
    /// side, to be streamed to the client in arrival order.
    pub fn send_outbound(&mut self, id: &String, message: String) -> (r: SendOutcome)
        requires
            old(self).wf(),
        ensures
            final(self).wf(),
            final(self).path() == old(self).path(),
            final(self).cap() == old(self).cap(),
            final(self).dispenser_is_closed() == old(self).dispenser_is_closed(),
            final(self).pending_ids() == old(self).pending_ids(),
            !old(self).sessions().contains_key(id@) ==> r is NotFound,
            old(self).sessions().contains_key(id@) ==> {
                let s = old(self).sessions()[id@];
                &&& s.outbound.closed ==> r is Closed
                &&& !s.outbound.closed && s.outbound.pending.len() >= s.outbound.capacity ==> r
                    is Full
                &&& !s.outbound.closed && s.outbound.pending.len() < s.outbound.capacity ==> r
                    is Sent
            },
            r is Sent ==> final(self).sessions() == old(self).sessions().insert(
                id@,
                with_outbound_push(old(self).sessions()[id@], message@),
            ),
            !(r is Sent) ==> final(self).sessions() == old(self).sessions(),
    {
        let found = self.registry.find(id);
        match found {
            None => SendOutcome::NotFound,
            Some(i) => {
                let mut entry = self.registry.take_at(i);
                let ghost mid = old(self).sessions();
                let ghost s = mid[id@];
                let outcome = entry.outbound.push(message);
                proof {
                    if outcome is Queued {
                        assert(entry@ == with_outbound_push(s, message@));
                    } else {
                        assert(entry@ == s);
                    }
                }
                self.registry.register(entry);
                proof {
                    assert(self.sessions() =~= mid.insert(id@, entry@));
                    if !(outcome is Queued) {
                        assert(self.sessions() =~= mid);
                    }
                    self.lemma_wf_after_insert(mid, id@, entry@);
                }
                match outcome {
                    PushOutcome::Queued => SendOutcome::Sent,
                    PushOutcome::Full => SendOutcome::Full,
                    PushOutcome::Closed => SendOutcome::Closed,
                }
            },
        }
    }

    /// Hand the protocol engine the earliest undelivered client submission
    /// for a session: deliveries follow submission order exactly.
    pub fn recv_inbound(&mut self, id: &String) -> (r: RecvOutcome)
        requires
            old(self).wf(),
        ensures
            final(self).wf(),
            final(self).path() == old(self).path(),
            final(self).cap() == old(self).cap(),
            final(self).dispenser_is_closed() == old(self).dispenser_is_closed(),
            final(self).pending_ids() == old(self).pending_ids(),
            !old(self).sessions().contains_key(id@) ==> r is NotFound && final(self).sessions()
                == old(self).sessions(),
            old(self).sessions().contains_key(id@) ==> {
                let s = old(self).sessions()[id@];
                &&& s.inbound.pending.len() > 0 ==> {
                    &&& r matches RecvOutcome::Delivered(m)
                    &&& (r matches RecvOutcome::Delivered(m) ==> {
                        &&& m@ == s.inbound.pending[0]
                        &&& m@ == s.inbound.arrived[s.inbound.delivered()]
                    })
                    &&& final(self).sessions() == old(self).sessions().insert(
                        id@,
                        with_inbound_pop(s),
                    )
                }
                &&& s.inbound.pending.len() == 0 ==> {
                    &&& final(self).sessions() == old(self).sessions()
                    &&& (s.inbound.closed ==> r is Ended)
                    &&& (!s.inbound.closed ==> r is Pending)
                }
            },
    {
        let found = self.registry.find(id);
        match found {
            None => RecvOutcome::NotFound,
            Some(i) => {
                let mut entry = self.registry.take_at(i);
                let ghost mid = old(self).sessions();
                let ghost s = mid[id@];
                let popped = entry.inbound.pop();
                proof {
                    match popped {
                        PopOutcome::Delivered(_) => assert(entry@ == with_inbound_pop(s)),
                        _ => assert(entry@ == s),
                    }
                }
                self.registry.register(entry);
                proof {
                    assert(self.sessions() =~= mid.insert(id@, entry@));
                    if !(popped matches PopOutcome::Delivered(_)) {
                        assert(self.sessions() =~= mid);
                    }
                    self.lemma_wf_after_insert(mid, id@, entry@);
                }
                match popped {
                    PopOutcome::Delivered(m) => RecvOutcome::Delivered(m),
                    PopOutcome::Pending => RecvOutcome::Pending,
                    PopOutcome::Ended => RecvOutcome::Ended,
                }
            },
        }
    }

    /// The protocol engine releases its ends of a session's channel: both
    /// queue sides close, so further submissions report the session gone, and
    /// the stream pump will observe the closed outbound queue, end the
    /// stream, and deregister. Idempotent, and a no-op after deregistration.
    pub fn close_outbound(&mut self, id: &String)
        requires
            old(self).wf(),
        ensures
            final(self).wf(),
            final(self).path() == old(self).path(),
            final(self).cap() == old(self).cap(),
            final(self).dispenser_is_closed() == old(self).dispenser_is_closed(),
            final(self).pending_ids() == old(self).pending_ids(),
            old(self).sessions().contains_key(id@) ==> final(self).sessions() == old(self).sessions().insert(id@, with_ends_closed(old(self).sessions()[id@])),
            !old(self).sessions().contains_key(id@) ==> final(self).sessions() == old(self).sessions(),
    {
        let found = self.registry.find(id);
        match found {
            None => {},
            Some(i) => {
                let mut entry = self.registry.take_at(i);
                let ghost mid = old(self).sessions();
                let ghost s = mid[id@];
                entry.inbound.close();
                entry.outbound.close();
                proof {
                    assert(entry@ == with_ends_closed(s));
                }
                self.registry.register(entry);
                proof {
                    assert(self.sessions() =~= mid.insert(id@, with_ends_closed(s)));
                    self.lemma_wf_after_insert(mid, id@, with_ends_closed(s));
                }
            },
        }
    }

    /// The client's connection dropped: tear the session down now. The same
    /// single teardown as a stream that ends normally — the session is
    /// deregistered, every other session untouched. Idempotent.
    pub fn disconnect(&mut self, id: &String)
        requires
            old(self).wf(),
        ensures
            final(self).wf(),
            final(self).path() == old(self).path(),
            final(self).cap() == old(self).cap(),
            final(self).dispenser_is_closed() == old(self).dispenser_is_closed(),
            final(self).pending_ids() == old(self).pending_ids(),
            final(self).sessions() == old(self).sessions().remove(id@),
    {
        self.registry.remove(id);
        proof {
            self.lemma_wf_after_drop(old(self).sessions(), id@);
        }
    }

    /// Hand the protocol engine the next session awaiting adoption, oldest
    /// first. `None` means none is pending right now.
    pub fn next_transport(&mut self) -> (r: Option<String>)
        requires
            old(self).wf(),
        ensures
            final(self).wf(),
            final(self).sessions() == old(self).sessions(),
            final(self).path() == old(self).path(),
            final(self).cap() == old(self).cap(),
            final(self).dispenser_is_closed() == old(self).dispenser_is_closed(),
            old(self).pending_ids().len() == 0 ==> r is None && final(self).pending_ids() == old(self).pending_ids(),
            old(self).pending_ids().len() > 0 ==> {
                &&& r matches Some(id)
                &&& (r matches Some(id) ==> id@ == old(self).pending_ids()[0])
                &&& final(self).pending_ids() == old(self).pending_ids().drop_first()
            },
    {
        if self.pending.len() > 0 {
            let id = self.pending.remove(0);
            proof {
                assert(self.pending_ids() =~= old(self).pending_ids().drop_first());
            }
            Some(id)
        } else {
            None
        }
    }

    /// The adopting side has shut down: refuse every new connection from now
    /// on. Existing sessions are unaffected.
    pub fn close_dispenser(&mut self)
        requires
            old(self).wf(),
        ensures
            final(self).wf(),
            final(self).sessions() == old(self).sessions(),
            final(self).pending_ids() == old(self).pending_ids(),
            final(self).path() == old(self).path(),
            final(self).cap() == old(self).cap(),
            final(self).dispenser_is_closed(),
    {
        self.dispenser_closed = true;
    }
}

/// Mint a session identifier: 32 lowercase hex characters from the clock and
/// a collision-resistant random generator.
pub fn generate_session_id() -> (r: String)
    ensures
        r@.len() == 32,
        crate::token::all_hex(r@),
{
    crate::token::generate_random_token()
}

/// The registry after opening one session under each identifier of `ids`, in
/// order, as `open_session` registers them.
pub open spec fn register_all(
    m: Map<Seq<char>, SessionModel>,
    ids: Seq<Seq<char>>,
    cap: nat,
) -> Map<Seq<char>, SessionModel>
    decreases ids.len(),
{
    if ids.len() == 0 {
        m
    } else {
        register_all(m.insert(ids.first(), fresh_session(cap)), ids.drop_first(), cap)
    }
}

/// Opening any number of sessions under distinct fresh identifiers leaves the
/// registry with exactly one live entry per identifier: the count grows by
/// the number of sessions opened, and every previously live session is still
/// there, untouched.
pub proof fn lemma_concurrent_opens_count(
    m: Map<Seq<char>, SessionModel>,
    ids: Seq<Seq<char>>,
    cap: nat,
)
    requires
        m.dom().finite(),
        forall|i: int, j: int| 0 <= i < j < ids.len() ==> ids[i] != ids[j],
        forall|i: int| 0 <= i < ids.len() ==> !m.contains_key(#[trigger] ids[i]),
    ensures
        register_all(m, ids, cap).dom().finite(),
        register_all(m, ids, cap).len() == m.len() + ids.len(),
        forall|i: int|
            0 <= i < ids.len() ==> register_all(m, ids, cap).contains_key(#[trigger] ids[i]),
        forall|k: Seq<char>| #[trigger]
            m.contains_key(k) ==> register_all(m, ids, cap).contains_key(k) && register_all(
                m,
                ids,
                cap,
            )[k] == m[k],
    decreases ids.len(),
{
    if ids.len() > 0 {
        let first = ids.first();
        let rest = ids.drop_first();
        let m1 = m.insert(first, fresh_session(cap));
        assert(m1.dom() =~= m.dom().insert(first));
        vstd::set::axiom_set_insert_len(m.dom(), first);
        assert(m1.len() == m.len() + 1);
        assert forall|i: int| 0 <= i < rest.len() implies !m1.contains_key(#[trigger] rest[i]) by {
            assert(rest[i] == ids[i + 1]);
        }
        lemma_concurrent_opens_count(m1, rest, cap);
        assert(register_all(m, ids, cap) == register_all(m1, rest, cap));
        assert(m1.contains_key(first));
        assert forall|i: int| 0 <= i < ids.len() implies register_all(m, ids, cap).contains_key(
            #[trigger] ids[i],
        ) by {
            if i == 0 {
                assert(m1.contains_key(first));
                assert(register_all(m1, rest, cap).contains_key(first));
            } else {
                assert(rest[i - 1] == ids[i]);
                assert(register_all(m1, rest, cap).contains_key(rest[i - 1]));
            }
        }
        assert forall|k: Seq<char>| #[trigger] m.contains_key(k) implies register_all(
            m,
            ids,
            cap,
        ).contains_key(k) && register_all(m, ids, cap)[k] == m[k] by {
            assert(k != first);
            assert(m1.contains_key(k) && m1[k] == m[k]);
        }
    }
}

/// Removing one session leaves every other live session exactly as it was:
/// still registered, with the same state; the removed identifier resolves to
/// nothing.
pub proof fn lemma_remove_leaves_others(
    m: Map<Seq<char>, SessionModel>,
    id: Seq<char>,
    other: Seq<char>,
)
    requires
        other != id,
    ensures
        !m.remove(id).contains_key(id),
        m.remove(id).contains_key(other) == m.contains_key(other),
        m.contains_key(other) ==> m.remove(id)[other] == m[other],
{
}

/// A submission for an identifier that was never registered, or was already
/// removed, is refused as not found — and `submit` leaves the registry
/// unchanged in that case, so no session is ever created by a submission.
pub proof fn lemma_unknown_submission(m: Map<Seq<char>, SessionModel>, id: Seq<char>)
    requires
        !m.contains_key(id),
    ensures
        submit_decision(m, id) is NotFound,
{
}

/// Submissions are delivered in submission order: messages accepted in the
/// order a, b, c occupy consecutive inbound arrival slots, and each delivery
/// hands out the earliest undelivered arrival, so the engine receives them as
/// a, b, c.
pub proof fn lemma_submissions_delivered_in_order(
    s: SessionModel,
    a: Seq<char>,
    b: Seq<char>,
    c: Seq<char>,
)
    ensures
        ({
            let s3 = with_inbound_push(with_inbound_push(with_inbound_push(s, a), b), c);
            let n = s.inbound.arrived.len() as int;
            &&& s3.inbound.arrived =~= s.inbound.arrived + seq![a, b, c]
            &&& s3.inbound.arrived[n] == a
            &&& s3.inbound.arrived[n + 1] == b
            &&& s3.inbound.arrived[n + 2] == c
        }),
{
}

/// The event stream of a session is its handshake event first, then each
/// outbound message as its own message event, in outbound arrival order.
pub proof fn lemma_stream_event_order(s: SessionModel, payload: Seq<char>, cap: nat, j: int)
    requires
        session_wf(s, payload, cap),
        0 <= j < s.emitted.len(),
    ensures
        s.handshake_sent,
        j == 0 ==> s.emitted[j] == EventModel::Endpoint(payload),
        j >= 1 ==> s.emitted[j] == EventModel::Message(s.outbound.arrived[j - 1]),
{
}

/// Between the engine closing a session's channel and the stream pump
/// deregistering it, the session is observably gone — distinguishable from
/// one that never existed.
pub proof fn lemma_closed_session_reports_gone(m: Map<Seq<char>, SessionModel>, id: Seq<char>)
    requires
        m.contains_key(id),
        m[id].inbound.closed,
    ensures
        submit_decision(m, id) is Gone,
{
}

/// Once the session is deregistered, a submission for its identifier reports
/// not found, exactly as for an identifier that was never issued.
pub proof fn lemma_removed_session_reports_not_found(
    m: Map<Seq<char>, SessionModel>,
    id: Seq<char>,
)
    ensures
        submit_decision(m.remove(id), id) is NotFound,
{
}

} // verus!
