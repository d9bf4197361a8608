//! The sessions behind one UDP socket.

use crate::addr::SocketAddr;
use crate::udp::frame::{
    decode_udp_datagram, decoded, frame_bytes, law_frame_roundtrip, law_legacy_roundtrip,
    law_probe_roundtrip, probe_bytes,
};
use crate::vec_map::{Key, VecMap};
use crate::wire::optional_bytes;
use vstd::prelude::*;

verus! {

/// How long a session that was closed stays closed, in nanoseconds.
pub const UDP_CLOSED_SESSION_TTL: u64 = 60_000_000_000;

/// Identifies a session.
#[derive(Debug, Clone, Copy, PartialEq, Eq, Hash, Structural)]
pub struct UdpConnectionKey {
    /// The other end.
    pub remote: SocketAddr,
    /// The number of the session, if it has one.
    pub session_id: Option<u128>,
}

impl Key for UdpConnectionKey {
    fn same(&self, other: &Self) -> (b: bool) {
        self.remote == other.remote && match (self.session_id, other.session_id) {
            (Some(a), Some(b)) => a == b,
            (None, None) => true,
            _ => false,
        }
    }
}

/// What to do with a datagram.
#[derive(Debug)]
pub enum ListenAction {
    /// Drop it.
    Ignore,
    /// Hand the payload, if there is one, to the session.
    Existing(UdpConnectionKey, Option<Vec<u8>>),
    /// Set up the session, which gets this generation; then hand it the payload, if there is
    /// one.
    New(UdpConnectionKey, u64, Option<Vec<u8>>),
}

/// What to do with a datagram.
pub enum ListenView {
    /// Drop it.
    Ignore,
    /// Hand the payload, if there is one, to the session.
    Existing(UdpConnectionKey, Option<Seq<u8>>),
    /// Set up the session, which gets this generation; then hand it the payload, if there is
    /// one.
    New(UdpConnectionKey, u64, Option<Seq<u8>>),
}

impl View for ListenAction {
    type V = ListenView;

    open spec fn view(&self) -> ListenView {
        match *self {
            ListenAction::Ignore => ListenView::Ignore,
            ListenAction::Existing(key, payload) => ListenView::Existing(
                key,
                optional_bytes(payload),
            ),
            ListenAction::New(key, generation, payload) => ListenView::New(
                key,
                generation,
                optional_bytes(payload),
            ),
        }
    }
}

/// What a listener holds.
#[verifier::ext_equal]
pub struct ListenerState {
    /// The generation of each session.
    pub connections: Map<UdpConnectionKey, u64>,
    /// When each session was closed.
    pub closed: Map<UdpConnectionKey, u64>,
    /// The generation of the next session.
    pub next_generation: u64,
}

impl ListenerState {
    /// A session is closed, and was not closed long ago.
    pub open spec fn recently_closed(self, key: UdpConnectionKey, now: u64) -> bool {
        self.closed.contains_key(key) && now - self.closed[key] < UDP_CLOSED_SESSION_TTL
    }

    /// The listener without the sessions that were closed long ago.
    pub open spec fn purged(self, now: u64) -> ListenerState {
        ListenerState {
            closed: self.closed.restrict(
                Set::new(|k: UdpConnectionKey| now - self.closed[k] < UDP_CLOSED_SESSION_TTL),
            ),
            ..self
        }
    }

    /// What to do with a datagram, and the listener after it. Unknown datagrams and those of
    /// sessions that were closed are dropped. The first datagram of a session sets it up.
    pub open spec fn routed(self, datagram: Seq<u8>, remote: SocketAddr, now: u64) -> (
        ListenerState,
        ListenView,
    ) {
        match decoded(datagram) {
            None => (self, ListenView::Ignore),
            Some(d) => {
                let key = UdpConnectionKey { remote, session_id: d.session_id };
                let purged = self.purged(now);
                if self.recently_closed(key, now) {
                    (purged, ListenView::Ignore)
                } else if self.connections.contains_key(key) {
                    (purged, ListenView::Existing(key, d.payload))
                } else {
                    (
                        ListenerState {
                            next_generation: self.next_generation.wrapping_add(1),
                            ..purged
                        },
                        ListenView::New(key, self.next_generation, d.payload),
                    )
                }
            },
        }
    }

    /// The listener after a session was set up.
    pub open spec fn with_open(self, key: UdpConnectionKey, generation: u64) -> ListenerState {
        ListenerState { connections: self.connections.insert(key, generation), ..self }
    }

    /// The listener after a session was closed.
    pub open spec fn with_closed(self, key: UdpConnectionKey, now: u64) -> ListenerState {
        ListenerState {
            connections: self.connections.remove(key),
            closed: self.closed.insert(key, now),
            ..self
        }
    }

    /// The listener after it was told that the session of a generation has ended. A later
    /// session with the same key stays.
    pub open spec fn with_cleanup(self, key: UdpConnectionKey, generation: u64, now: u64) -> ListenerState {
        if self.connections.contains_key(key) && self.connections[key] == generation {
            self.with_closed(key, now)
        } else {
            self
        }
    }
}

/// The sessions behind one socket.
pub struct UdpListener {
    /// The generation of each session.
    pub connections: VecMap<UdpConnectionKey, u64>,
    /// When each session was closed, in nanoseconds.
    pub closed_sessions: VecMap<UdpConnectionKey, u64>,
    /// The generation of the next session.
    pub next_connection_generation: u64,
}

impl View for UdpListener {
    type V = ListenerState;

    open spec fn view(&self) -> ListenerState {
        ListenerState {
            connections: self.connections@,
            closed: self.closed_sessions@,
            next_generation: self.next_connection_generation,
        }
    }
}

impl UdpListener {
    /// The maps are well-formed.
    pub open spec fn wf(&self) -> bool {
        self.connections.wf() && self.closed_sessions.wf()
    }

    /// A listener without sessions.
    pub fn new() -> (l: UdpListener)
        ensures
            l.wf(),
            l@ == (ListenerState {
                connections: Map::empty(),
                closed: Map::empty(),
                next_generation: 0,
            }),
    {
        UdpListener {
            connections: VecMap::new(),
            closed_sessions: VecMap::new(),
            next_connection_generation: 0,
        }
    }

    /// Decides what to do with a datagram that arrived at the time `now`.
    pub fn on_datagram(&mut self, datagram: &[u8], remote: SocketAddr, now: u64) -> (action:
        ListenAction)
        requires
            old(self).wf(),
        ensures
            final(self).wf(),
            (final(self)@, action@) == old(self)@.routed(datagram@, remote, now),
    {
        let ghost before = self@;
        let d = match decode_udp_datagram(datagram) {
            Some(d) => d,
            None => {
                return ListenAction::Ignore;
            },
        };
        let key = UdpConnectionKey { remote, session_id: d.session_id };
        let keep = |_key: &UdpConnectionKey, closed_at: &u64| -> (b: bool)
            ensures
                b == (now - *closed_at < UDP_CLOSED_SESSION_TTL),
            { now.saturating_sub(*closed_at) < UDP_CLOSED_SESSION_TTL };
        self.closed_sessions.retain(
            keep,
            Ghost(|k: UdpConnectionKey, at: u64| now - at < UDP_CLOSED_SESSION_TTL),
        );
        assert(self@ =~= before.purged(now));
        if self.closed_sessions.contains_key(&key) {
            return ListenAction::Ignore;
        }
        if self.connections.contains_key(&key) {
            return ListenAction::Existing(key, d.payload);
        }
        let generation: u64 = self.next_connection_generation;
        self.next_connection_generation = generation.wrapping_add(1);
        ListenAction::New(key, generation, d.payload)
    }

    /// Takes note that a session was set up.
    pub fn opened(&mut self, key: UdpConnectionKey, generation: u64)
        requires
            old(self).wf(),
        ensures
            final(self).wf(),
            final(self)@ == old(self)@.with_open(key, generation),
    {
        self.connections.insert(key, generation);
    }

    /// Takes note that a payload could not be handed over, because the session has ended.
    pub fn delivery_failed(&mut self, key: UdpConnectionKey, now: u64)
        requires
            old(self).wf(),
        ensures
            final(self).wf(),
            final(self)@ == old(self)@.with_closed(key, now),
    {
        let _ = self.connections.remove(&key);
        self.closed_sessions.insert(key, now);
    }

    /// Takes note that the session of a generation has ended.
    pub fn cleanup(&mut self, key: UdpConnectionKey, generation: u64, now: u64)
        requires
            old(self).wf(),
        ensures
            final(self).wf(),
            final(self)@ == old(self)@.with_cleanup(key, generation, now),
    {
        let current = match self.connections.get(&key) {
            Some(current) => *current == generation,
            None => false,
        };
        if current {
            self.delivery_failed(key, now);
        }
    }
}

/// No session is both open and recently closed.
pub open spec fn listener_sound(s: ListenerState) -> bool {
    forall|k: UdpConnectionKey| #[trigger]
        s.connections.contains_key(k) ==> !s.closed.contains_key(k)
}

/// Whatever happens, no session is open and closed at once. A session is set up only after a
/// datagram asked for it.
pub proof fn law_listener_stays_sound(
    s: ListenerState,
    datagram: Seq<u8>,
    remote: SocketAddr,
    now: u64,
    key: UdpConnectionKey,
    generation: u64,
)
    requires
        listener_sound(s),
    ensures
        ({
            let (after, action) = s.routed(datagram, remote, now);
            &&& listener_sound(after)
            &&& match action {
                ListenView::New(new_key, new_generation, _) => listener_sound(
                    after.with_open(new_key, new_generation),
                ),
                _ => true,
            }
        }),
        listener_sound(s.with_closed(key, now)),
        listener_sound(s.with_cleanup(key, generation, now)),
{
}

/// For a minute after it was closed, the datagrams of a session are dropped; after that they
/// set it up anew.
pub proof fn law_closed_sessions_stay_closed(
    s: ListenerState,
    key: UdpConnectionKey,
    closed_at: u64,
    datagram: Seq<u8>,
    now: u64,
)
    requires
        decoded(datagram) is Some,
        decoded(datagram)->0.session_id == key.session_id,
    ensures
        ({
            let action = s.with_closed(key, closed_at).routed(datagram, key.remote, now).1;
            if now - closed_at < 60_000_000_000 {
                action is Ignore
            } else {
                action is New
            }
        }),
{
}

/// Being told of the end of an older session does not close a newer one.
pub proof fn law_cleanup_spares_newer_sessions(
    s: ListenerState,
    key: UdpConnectionKey,
    old_generation: u64,
    new_generation: u64,
    now: u64,
)
    requires
        old_generation != new_generation,
    ensures
        s.with_open(key, new_generation).with_cleanup(key, old_generation, now) == s.with_open(
            key,
            new_generation,
        ),
        s.with_open(key, new_generation).with_cleanup(key, new_generation, now)
            == s.with_open(key, new_generation).with_closed(key, now),
{
}

/// All sessions are of an earlier generation than the next one.
pub open spec fn generations_past(s: ListenerState) -> bool {
    forall|k: UdpConnectionKey| #[trigger]
        s.connections.contains_key(k) ==> s.connections[k] < s.next_generation
}

/// A new session has a generation that no session has had, as long as the numbers last.
pub proof fn law_generations_are_fresh(
    s: ListenerState,
    datagram: Seq<u8>,
    remote: SocketAddr,
    now: u64,
)
    requires
        generations_past(s),
        s.next_generation < u64::MAX,
    ensures
        ({
            let (after, action) = s.routed(datagram, remote, now);
            &&& generations_past(after)
            &&& match action {
                ListenView::New(key, generation, _) => {
                    &&& generation == s.next_generation
                    &&& generations_past(after.with_open(key, generation))
                },
                _ => true,
            }
        }),
{
}

/// A datagram changes nothing about sessions that are open.
pub proof fn law_datagrams_leave_sessions_open(
    s: ListenerState,
    datagram: Seq<u8>,
    remote: SocketAddr,
    now: u64,
)
    ensures
        s.routed(datagram, remote, now).0.connections == s.connections,
{
}

/// What becomes of the datagrams of a session that was not closed within the last minute. Where
/// it is open, a probe hands nothing over, and a frame hands its payload over, unchanged. Where
/// it is not open, its first datagram sets it up, with the next generation, and is then treated
/// in the same way. So are datagrams without a session, by their sender alone.
#[verifier::rlimit(60)]
pub proof fn law_datagrams_go_to_their_session(
    s: ListenerState,
    remote: SocketAddr,
    session_id: Option<u128>,
    payload: Seq<u8>,
    now: u64,
)
    requires
        ({
            let key = UdpConnectionKey { remote, session_id };
            s.closed.contains_key(key) ==> now - s.closed[key] >= 60_000_000_000
        }),
        session_id is None ==> payload.len() >= 4 && payload.take(4) == seq![65u8, 71, 68, 49],
    ensures
        ({
            let key = UdpConnectionKey { remote, session_id };
            let (after_probe, on_probe) = s.routed(probe_bytes(session_id), remote, now);
            let (after_frame, on_frame) = s.routed(frame_bytes(session_id, payload), remote, now);
            &&& after_probe.connections == s.connections
            &&& after_frame.connections == s.connections
            &&& if s.connections.contains_key(key) {
                &&& on_probe == ListenView::Existing(key, None)
                &&& on_frame == ListenView::Existing(key, Some(payload))
                &&& after_probe.next_generation == s.next_generation
                &&& after_frame.next_generation == s.next_generation
            } else {
                &&& on_probe == ListenView::New(key, s.next_generation, None)
                &&& on_frame == ListenView::New(key, s.next_generation, Some(payload))
                &&& after_probe.next_generation == (s.next_generation + 1)
                    % 0x1_0000_0000_0000_0000
                &&& after_frame.next_generation == (s.next_generation + 1)
                    % 0x1_0000_0000_0000_0000
            }
        }),
{
    law_probe_roundtrip(session_id);
    match session_id {
        Some(id) => law_frame_roundtrip(id, payload),
        None => law_legacy_roundtrip(payload),
    }
}

/// Whatever a datagram holds, it is dropped if it is unknown, or if it belongs to a session that
/// was closed less than a minute ago; every other one is handed to the session between its
/// sender and its number, with exactly the payload that is in it. An unknown one changes
/// nothing; every other one makes the listener forget the sessions that were closed a minute
/// ago or longer, and no others.
#[verifier::rlimit(60)]
pub proof fn law_datagrams_are_dropped_or_handed_over(
    s: ListenerState,
    datagram: Seq<u8>,
    remote: SocketAddr,
    now: u64,
    other: UdpConnectionKey,
)
    ensures
        ({
            let (after, action) = s.routed(datagram, remote, now);
            match decoded(datagram) {
                None => action is Ignore && after == s,
                Some(d) => {
                    let key = UdpConnectionKey { remote, session_id: d.session_id };
                    let closed = s.closed.contains_key(key) && now - s.closed[key] < 60_000_000_000;
                    &&& action is Ignore <==> closed
                    &&& action matches ListenView::Existing(k, payload) ==> {
                        k == key && payload == d.payload && s.connections.contains_key(key)
                    }
                    &&& action matches ListenView::New(k, generation, payload) ==> {
                        k == key && payload == d.payload && !s.connections.contains_key(key)
                            && generation == s.next_generation
                    }
                    &&& after.connections == s.connections
                    &&& after.next_generation == if action is New {
                        (s.next_generation + 1) % 0x1_0000_0000_0000_0000
                    } else {
                        s.next_generation as int
                    }
                    &&& after.closed.contains_key(other) <==> s.closed.contains_key(other) && now
                        - s.closed[other] < 60_000_000_000
                    &&& after.closed.contains_key(other) ==> after.closed[other] == s.closed[other]
                },
            }
        }),
{
}

/// Setting a session up and closing it concerns that session alone. Once it is set up it is open
/// with its generation; once it is closed it is not open, and was closed just now. Being told
/// of the end of a session closes it only if it is of the generation that has ended.
pub proof fn law_sessions_are_opened_and_closed_alone(
    s: ListenerState,
    key: UdpConnectionKey,
    generation: u64,
    now: u64,
    other: UdpConnectionKey,
)
    ensures
        ({
            let open = s.with_open(key, generation);
            let closed = s.with_closed(key, now);
            let cleaned = s.with_cleanup(key, generation, now);
            &&& open.connections.contains_key(key) && open.connections[key] == generation
            &&& open.closed == s.closed && open.next_generation == s.next_generation
            &&& !closed.connections.contains_key(key)
            &&& closed.closed.contains_key(key) && closed.closed[key] == now
            &&& closed.next_generation == s.next_generation
            &&& cleaned == if s.connections.contains_key(key) && s.connections[key] == generation {
                closed
            } else {
                s
            }
            &&& other != key ==> {
                &&& open.connections.contains_key(other) <==> s.connections.contains_key(other)
                &&& closed.connections.contains_key(other) <==> s.connections.contains_key(other)
                &&& closed.closed.contains_key(other) <==> s.closed.contains_key(other)
                &&& s.connections.contains_key(other) ==> open.connections[other]
                    == s.connections[other] && closed.connections[other] == s.connections[other]
                &&& s.closed.contains_key(other) ==> closed.closed[other] == s.closed[other]
            }
        }),
{
}

/// What is seen of a decision is all of it, and what is seen of a listener is its sessions, when
/// they were closed, and the next generation.
pub proof fn law_listeners_are_seen_whole(l: UdpListener, action: ListenAction)
    ensures
        l@.connections == l.connections@,
        l@.closed == l.closed_sessions@,
        l@.next_generation == l.next_connection_generation,
        action is Ignore <==> action@ is Ignore,
        action matches ListenAction::Existing(key, payload) ==> (action@ matches
            ListenView::Existing(k, seen) && k == key && (payload is None <==> seen is None) && (
        payload is Some ==> seen == Some(payload->0@))),
        action matches ListenAction::New(key, generation, payload) ==> (action@ matches
            ListenView::New(k, g, seen) && k == key && g == generation && (payload is None
            <==> seen is None) && (payload is Some ==> seen == Some(payload->0@))),
{
}

} // verus!
