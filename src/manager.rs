use vstd::prelude::*;
use crate::peer::{Interest, Peer, CAPACITY};
use crate::session::{received_chunk, wrote_chunk, Session};
use crate::token::{locate, locate_spec, peer_token_spec, Side};

verus! {

/// What the event loop learned from one readiness notification on a peer.
pub enum Event {
    /// A read from the peer's socket returned these bytes (none: end of stream).
    Received(Vec<u8>),
    /// A write to the peer's socket of its counterpart's unsent bytes took
    /// this many of them.
    Sent(usize),
    /// The read or write would have blocked.
    WouldBlock,
    /// The read or write failed.
    Failed,
}

/// What the event loop has to do after an event was handled.
#[derive(Clone, Copy, PartialEq, Eq, Structural, Debug)]
pub enum Action {
    /// Nothing changed that the multiplexer needs to know: wait for the
    /// next notification.
    Wait,
    /// Interest changed: reregister both peers of the session.
    Reregister,
    /// The session is over: deregister both peers and release it.
    Teardown,
    /// The token belongs to no live session.
    Unknown,
}

/// Token `t` is the lowest free slot of `occ`.
pub open spec fn is_lowest_free(occ: Seq<bool>, t: int) -> bool {
    &&& 0 <= t < occ.len()
    &&& !occ[t]
    &&& forall|j: int| 0 <= j < t ==> occ[j]
}

/// Every slot of `occ` holds a live session.
pub open spec fn all_live(occ: Seq<bool>) -> bool {
    forall|j: int| 0 <= j < occ.len() ==> occ[j]
}

/// The number of live slots of `occ`.
pub open spec fn live_count(occ: Seq<bool>) -> nat
    decreases occ.len(),
{
    if occ.len() == 0 {
        0
    } else {
        live_count(occ.drop_last()) + if occ.last() { 1nat } else { 0nat }
    }
}

/// The registry never holds more live sessions than it has tokens, and it
/// is full (so that the next connection is refused) exactly when every
/// token is live.
pub proof fn lemma_capacity_bound(occ: Seq<bool>)
    ensures
        live_count(occ) <= occ.len(),
        live_count(occ) == occ.len() <==> all_live(occ),
    decreases occ.len(),
{
    if occ.len() > 0 {
        let rest = occ.drop_last();
        lemma_capacity_bound(rest);
        if all_live(occ) {
            assert forall|j: int| 0 <= j < rest.len() implies rest[j] by {
                assert(occ[j]);
            }
            assert(occ[occ.len() - 1]);
        }
        if live_count(occ) == occ.len() {
            assert forall|j: int| 0 <= j < occ.len() implies occ[j] by {
                if j < rest.len() {
                    assert(rest[j]);
                }
            }
        }
    }
}

/// Once the session under token `t` is released its token is free again:
/// the registry is no longer full, and when every lower token is live, `t`
/// is the very token the next session gets. A token handed out is always
/// one that no live session holds.
pub proof fn lemma_released_token_is_reused(occ: Seq<bool>, t: int)
    requires
        0 <= t < occ.len(),
    ensures
        !occ.update(t, false)[t],
        !all_live(occ.update(t, false)),
        (forall|j: int| 0 <= j < t ==> occ[j]) ==> is_lowest_free(occ.update(t, false), t),
        forall|u: int| is_lowest_free(occ, u) ==> !occ[u],
{
}

/// The session just opened under `key`: both peers read-watched, nothing
/// transferred yet.
pub open spec fn is_opened<S>(s: Session<S>, source: S, target: S, key: int, max: int) -> bool {
    &&& s.wf(key, max)
    &&& opened_peer(s.source, source)
    &&& opened_peer(s.target, target)
}

pub open spec fn opened_peer<S>(p: Peer<S>, socket: S) -> bool {
    &&& p.socket_spec() == socket
    &&& p.pending_spec() == Seq::<u8>::empty()
    &&& p.received_spec() == Seq::<u8>::empty()
    &&& p.delivered_spec() == Seq::<u8>::empty()
    &&& p.interest_spec() == (Interest { readable: true, writable: false })
}

/// The registry of live sessions, one slot per source token. A slot is free
/// exactly when it holds no session, so live and free tokens always add up
/// to the capacity, and no token is ever held by two sessions.
pub struct SessionManager<S> {
    slots: Vec<Option<Session<S>>>,
}

impl<S> SessionManager<S> {
    /// The configured maximum number of concurrent sessions.
    pub closed spec fn max_spec(&self) -> int {
        self.slots@.len() as int
    }

    pub closed spec fn session_spec(&self, key: int) -> Option<Session<S>> {
        self.slots@[key]
    }

    /// Which tokens hold a live session.
    pub open spec fn occupancy(&self) -> Seq<bool> {
        Seq::new(self.max_spec() as nat, |k: int| self.session_spec(k) is Some)
    }

    pub closed spec fn wf(&self) -> bool {
        &&& 2 * self.slots@.len() < usize::MAX
        &&& forall|k: int|
            0 <= k < self.slots@.len() ==> (#[trigger] self.slots@[k] matches Some(s) ==> s.wf(
                k,
                self.slots@.len() as int,
            ))
    }

    /// `self` holds exactly the sessions of `o`, under the same tokens.
    pub open spec fn same_sessions(&self, o: &Self) -> bool {
        &&& self.max_spec() == o.max_spec()
        &&& forall|k: int| 0 <= k < self.max_spec() ==> self.session_spec(k) == o.session_spec(k)
    }

    /// Every live session of a well-formed registry is well formed, its
    /// peers carrying the tokens derived from its key.
    pub proof fn lemma_live_session_wf(&self, key: int)
        requires
            self.wf(),
            0 <= key < self.max_spec(),
            self.session_spec(key) is Some,
        ensures
            self.session_spec(key)->Some_0.wf(key, self.max_spec()),
    {
        assert(self.slots@[key] matches Some(s) ==> s.wf(key, self.slots@.len() as int));
    }

    /// Byte integrity of every relayed direction: the bytes read so far from
    /// the peer of `token` are exactly those already written to its
    /// counterpart, in order, followed by those still buffered, of which
    /// there is at most one buffer's worth. When nothing is buffered the
    /// counterpart has received the whole stream.
    pub proof fn lemma_byte_integrity(&self, token: int)
        requires
            self.wf(),
            self.live_peer(token) is Some,
        ensures
            ({
                let (key, side) = self.live_peer(token)->Some_0;
                let p = self.session_spec(key)->Some_0.peer_spec(side);
                &&& p.received_spec() == p.delivered_spec() + p.pending_spec()
                &&& p.pending_spec().len() <= CAPACITY
                &&& !p.has_pending() ==> p.delivered_spec() == p.received_spec()
            }),
    {
        let (key, side) = self.live_peer(token)->Some_0;
        self.lemma_live_session_wf(key);
        let p = self.session_spec(key)->Some_0.peer_spec(side);
        p.lemma_stream_accounting();
        if !p.has_pending() {
            p.lemma_drained_stream_is_exact();
        }
    }

    /// The live session and side that `token` denotes, if any.
    pub open spec fn live_peer(&self, token: int) -> Option<(int, Side)> {
        match locate_spec(token, self.max_spec()) {
            Some((k, side)) => if self.session_spec(k) is Some {
                Some((k, side))
            } else {
                None
            },
            None => None,
        }
    }

    /// Room for `max_token` sessions, all of them free.
    pub fn new(max_token: usize) -> (r: SessionManager<S>)
        requires
            2 * max_token < usize::MAX,
        ensures
            r.wf(),
            r.max_spec() == max_token,
            forall|k: int| 0 <= k < max_token ==> r.session_spec(k) is None,
    {
        let mut slots: Vec<Option<Session<S>>> = Vec::new();
        let mut i: usize = 0;
        while i < max_token
            invariant
                i <= max_token,
                slots@.len() == i,
                forall|k: int| 0 <= k < i ==> slots@[k] is None,
            decreases max_token - i,
        {
            slots.push(None);
            i = i + 1;
        }
        SessionManager { slots }
    }

    pub fn max_sessions(&self) -> (r: usize)
        ensures
            r == self.max_spec(),
    {
        self.slots.len()
    }

    /// Whether a new connection can be taken: some token is free.
    pub fn has_free_token(&self) -> (r: bool)
        ensures
            r == !all_live(self.occupancy()),
    {
        let n = self.slots.len();
        let mut i: usize = 0;
        while i < n
            invariant
                i <= n,
                n == self.slots@.len(),
                forall|j: int| 0 <= j < i ==> self.slots@[j] is Some,
            decreases n - i,
        {
            if self.slots[i].is_none() {
                assert(!self.occupancy()[i as int]);
                return true;
            }
            i = i + 1;
        }
        assert(all_live(self.occupancy()));
        false
    }

    /// Opens a session for a newly accepted client socket and the upstream
    /// connection initiated for it, under the lowest free token. When every
    /// token is taken the connection is refused: both sockets are dropped
    /// and nothing changes.
    pub fn new_session(&mut self, source: S, target: S) -> (r: Option<usize>)
        requires
            old(self).wf(),
        ensures
            final(self).wf(),
            final(self).max_spec() == old(self).max_spec(),
            match r {
                Some(t) => {
                    &&& is_lowest_free(old(self).occupancy(), t as int)
                    &&& final(self).occupancy() == old(self).occupancy().update(t as int, true)
                    &&& final(self).session_spec(t as int) matches Some(s) && is_opened(
                        s,
                        source,
                        target,
                        t as int,
                        old(self).max_spec(),
                    )
                    &&& forall|k: int|
                        0 <= k < old(self).max_spec() && k != t ==> final(self).session_spec(k) == old(self).session_spec(k)
                },
                None => {
                    &&& all_live(old(self).occupancy())
                    &&& final(self).same_sessions(old(self))
                },
            },
    {
        let n = self.slots.len();
        let mut i: usize = 0;
        while i < n && self.slots[i].is_some()
            invariant
                i <= n,
                n == self.slots@.len(),
                forall|j: int| 0 <= j < i ==> self.slots@[j] is Some,
            decreases n - i,
        {
            i = i + 1;
        }
        if i == n {
            assert(all_live(old(self).occupancy()));
            return None;
        }
        let mut s = Session::new(source, target);
        s.source.set_interest(Interest { readable: true, writable: false });
        s.source.set_token(i);
        s.target.set_interest(Interest { readable: true, writable: false });
        s.target.set_token(i + n);
        self.slots.set(i, Some(s));
        assert(self.occupancy() =~= old(self).occupancy().update(i as int, true));
        Some(i)
    }

    /// The live session under `key`, if any.
    pub fn get(&self, key: usize) -> (r: Option<&Session<S>>)
        requires
            self.wf(),
        ensures
            match r {
                Some(s) => 0 <= key < self.max_spec() && self.session_spec(key as int) == Some(*s),
                None => !(0 <= key < self.max_spec() && self.session_spec(key as int) is Some),
            },
    {
        if key < self.slots.len() {
            self.slots[key].as_ref()
        } else {
            None
        }
    }

    /// Ends the session under `key` and frees its token; the session is
    /// handed back so that both of its sockets can be closed together.
    pub fn release_session(&mut self, key: usize) -> (r: Option<Session<S>>)
        requires
            old(self).wf(),
        ensures
            final(self).wf(),
            final(self).max_spec() == old(self).max_spec(),
            match r {
                Some(s) => {
                    &&& 0 <= key < old(self).max_spec()
                    &&& old(self).session_spec(key as int) == Some(s)
                    &&& final(self).occupancy() == old(self).occupancy().update(key as int, false)
                    &&& final(self).session_spec(key as int) is None
                    &&& forall|k: int|
                        0 <= k < old(self).max_spec() && k != key ==> final(self).session_spec(k) == old(self).session_spec(k)
                },
                None => {
                    &&& !(0 <= key < old(self).max_spec() && old(self).session_spec(
                        key as int,
                    ) is Some)
                    &&& final(self).same_sessions(old(self))
                },
            },
    {
        if key >= self.slots.len() {
            return None;
        }
        let mut taken: Option<Session<S>> = None;
        self.slots.set_and_swap(key, &mut taken);
        if taken.is_none() {
            self.slots.set_and_swap(key, &mut taken);
            assert(self.slots@ =~= old(self).slots@);
            return None;
        }
        assert(self.occupancy() =~= old(self).occupancy().update(key as int, false));
        taken
    }

    /// The bytes that the peer of `token` is to write: what its counterpart
    /// read and has not seen forwarded yet.
    pub open spec fn outgoing_spec(&self, token: int) -> Option<Seq<u8>> {
        match self.live_peer(token) {
            Some((k, side)) => Some(
                self.session_spec(k)->Some_0.peer_spec(side.other()).pending_spec(),
            ),
            None => None,
        }
    }

    /// A chunk read from the peer of `token` can be taken in without losing
    /// a byte: that peer holds nothing unsent (or the token is stale).
    pub open spec fn accepts_input(&self, token: int) -> bool {
        match self.live_peer(token) {
            Some((k, side)) => !self.session_spec(k)->Some_0.peer_spec(side).has_pending(),
            None => true,
        }
    }

    /// Whether the peer of `token` is in its receiving state, i.e. watched
    /// for readability. Only then may its socket be read.
    pub fn wants_read(&self, token: usize) -> (r: bool)
        requires
            self.wf(),
        ensures
            r == (self.live_peer(token as int) matches Some((k, side))
                && self.session_spec(k)->Some_0.peer_spec(side).interest_spec().readable),
            r ==> self.accepts_input(token as int),
    {
        match locate(token, self.slots.len()) {
            Some((k, side)) => match self.slots[k].as_ref() {
                Some(s) => s.peer(side).interest().readable,
                None => false,
            },
            None => false,
        }
    }

    /// The bytes that the peer of `token` is to write, if it is live.
    pub fn outgoing(&self, token: usize) -> (r: Option<&[u8]>)
        requires
            self.wf(),
        ensures
            match r {
                Some(b) => self.outgoing_spec(token as int) == Some(b@),
                None => self.outgoing_spec(token as int) is None,
            },
    {
        match locate(token, self.slots.len()) {
            Some((k, side)) => match self.slots[k].as_ref() {
                Some(s) => {
                    let other = match side {
                        Side::Source => Side::Target,
                        Side::Target => Side::Source,
                    };
                    Some(s.peer(other).pending())
                },
                None => None,
            },
            None => None,
        }
    }

    /// Runs the forwarding state machine on one event of the peer of
    /// `token`. A chunk read is staged for the counterpart and reading stops
    /// until it is drained; a write consumes the counterpart's chunk and,
    /// once it is gone, reading resumes. End of stream or a failure on either
    /// side ends the whole session.
    pub fn handle_event(&mut self, token: usize, event: Event) -> (r: Action)
        requires
            old(self).wf(),
            event matches Event::Received(d) ==> d@.len() <= CAPACITY && old(self).accepts_input(
                token as int,
            ),
            event matches Event::Sent(k) ==> (old(self).outgoing_spec(token as int) matches Some(
                b,
            ) ==> k <= b.len()),
        ensures
            final(self).wf(),
            final(self).max_spec() == old(self).max_spec(),
            final(self).occupancy() == old(self).occupancy(),
            match old(self).live_peer(token as int) {
                None => r == Action::Unknown && final(self).same_sessions(old(self)),
                Some((key, side)) => {
                    let s = old(self).session_spec(key)->Some_0;
                    let s2 = final(self).session_spec(key)->Some_0;
                    &&& final(self).session_spec(key) is Some
                    &&& forall|k: int|
                        0 <= k < old(self).max_spec() && k != key ==> final(self).session_spec(k)
                            == old(self).session_spec(k)
                    &&& match event {
                        Event::Received(d) => if d@.len() == 0 {
                            r == Action::Teardown && s2 == s
                        } else {
                            r == Action::Reregister && received_chunk(s, s2, side, d@)
                        },
                        Event::Sent(k) => {
                            &&& wrote_chunk(s, s2, side, k as int)
                            &&& r == if k == s.peer_spec(side.other()).pending_spec().len() {
                                Action::Reregister
                            } else {
                                Action::Wait
                            }
                        },
                        Event::WouldBlock => r == Action::Wait && s2 == s,
                        Event::Failed => r == Action::Teardown && s2 == s,
                    }
                },
            },
    {
        let n = self.slots.len();
        let (key, side) = match locate(token, n) {
            Some(found) => found,
            None => {
                return Action::Unknown;
            },
        };
        if self.slots[key].is_none() {
            return Action::Unknown;
        }
        let mut taken: Option<Session<S>> = None;
        self.slots.set_and_swap(key, &mut taken);
        let mut s = match taken {
            Some(s) => s,
            None => {
                return Action::Unknown;
            },
        };
        assert(s.wf(key as int, n as int));
        let r = match event {
            Event::Received(d) => {
                if d.len() == 0 {
                    Action::Teardown
                } else {
                    s.receive(side, d.as_slice());
                    Action::Reregister
                }
            },
            Event::Sent(k) => {
                if s.transmitted(side, k) {
                    Action::Reregister
                } else {
                    Action::Wait
                }
            },
            Event::WouldBlock => Action::Wait,
            Event::Failed => Action::Teardown,
        };
        self.slots.set(key, Some(s));
        assert(self.occupancy() =~= old(self).occupancy());
        r
    }
}

} // verus!
