use vstd::prelude::*;
use crate::peer::{Interest, Peer, CAPACITY};
use crate::token::{peer_token_spec, Side};

verus! {

/// One relayed connection: the client-facing and the upstream-facing peer.
pub struct Session<S> {
    pub source: Peer<S>,
    pub target: Peer<S>,
}

/// The flow-control coupling of one direction, from `from`'s socket to
/// `to`'s: `from` is watched for reading exactly when it holds nothing
/// unsent, and `to` is watched for writing exactly when `from` does.
pub open spec fn direction_wf<S>(from: Peer<S>, to: Peer<S>) -> bool {
    &&& from.interest_spec().readable == !from.has_pending()
    &&& to.interest_spec().writable == from.has_pending()
}

/// `q` carries the same socket, token and stream state as `p`; only its
/// interest may differ.
pub open spec fn same_stream<S>(p: Peer<S>, q: Peer<S>) -> bool {
    &&& q.socket_spec() == p.socket_spec()
    &&& q.token_spec() == p.token_spec()
    &&& q.pending_spec() == p.pending_spec()
    &&& q.received_spec() == p.received_spec()
    &&& q.delivered_spec() == p.delivered_spec()
    &&& q.wf() == p.wf()
}

/// `s2` is `s` after the peer on `side` read the non-empty chunk `data`: the
/// chunk is staged for the counterpart, the reader stops reading and the
/// counterpart starts watching for writability.
pub open spec fn received_chunk<S>(s: Session<S>, s2: Session<S>, side: Side, data: Seq<u8>) -> bool {
    let this = s.peer_spec(side);
    let that = s.peer_spec(side.other());
    let this2 = s2.peer_spec(side);
    let that2 = s2.peer_spec(side.other());
    &&& this2.socket_spec() == this.socket_spec()
    &&& this2.token_spec() == this.token_spec()
    &&& this2.pending_spec() == data
    &&& this2.received_spec() == this.received_spec() + data
    &&& this2.delivered_spec() == this.delivered_spec()
    &&& this2.interest_spec() == (Interest { readable: false, writable: this.interest_spec().writable })
    &&& same_stream(that, that2)
    &&& that2.interest_spec() == (Interest { readable: that.interest_spec().readable, writable: true })
}

/// `s2` is `s` after the socket of the peer on `side` accepted the first `k`
/// bytes that its counterpart holds. Once the counterpart's chunk is fully
/// drained, the writer stops watching for writability and the counterpart
/// resumes reading.
pub open spec fn wrote_chunk<S>(s: Session<S>, s2: Session<S>, side: Side, k: int) -> bool {
    let this = s.peer_spec(side);
    let that = s.peer_spec(side.other());
    let this2 = s2.peer_spec(side);
    let that2 = s2.peer_spec(side.other());
    let out = that.pending_spec();
    &&& same_stream(this, this2)
    &&& that2.socket_spec() == that.socket_spec()
    &&& that2.token_spec() == that.token_spec()
    &&& that2.pending_spec() == out.subrange(k, out.len() as int)
    &&& that2.received_spec() == that.received_spec()
    &&& that2.delivered_spec() == that.delivered_spec() + out.subrange(0, k)
    &&& if k == out.len() {
        &&& this2.interest_spec() == (Interest { readable: this.interest_spec().readable, writable: false })
        &&& that2.interest_spec() == (Interest { readable: true, writable: that.interest_spec().writable })
    } else {
        &&& this2.interest_spec() == this.interest_spec()
        &&& that2.interest_spec() == that.interest_spec()
    }
}

/// Backpressure: a peer that still holds bytes for its counterpart is not
/// read from, so it never holds more than one buffer's worth and never has
/// to discard anything; its counterpart is meanwhile watched for writability.
pub proof fn lemma_backpressure<S>(s: Session<S>, side: Side)
    requires
        s.flow_wf(),
    ensures
        s.peer_spec(side).has_pending() ==> !s.peer_spec(side).interest_spec().readable,
        s.peer_spec(side).has_pending() ==> s.peer_spec(side.other()).interest_spec().writable,
        s.peer_spec(side).pending_spec().len() <= CAPACITY,
{
    s.peer_spec(side).lemma_stream_accounting();
}

impl<S> Session<S> {
    /// Pairs a freshly accepted client socket with a freshly initiated
    /// upstream connection.
    pub fn new(source: S, target: S) -> (r: Session<S>)
        ensures
            r.source.is_fresh(source),
            r.target.is_fresh(target),
    {
        Session { source: Peer::with_stream(source), target: Peer::with_stream(target) }
    }

    pub open spec fn peer_spec(&self, side: Side) -> Peer<S> {
        match side {
            Side::Source => self.source,
            Side::Target => self.target,
        }
    }

    pub fn peer(&self, side: Side) -> (r: &Peer<S>)
        ensures
            *r == self.peer_spec(side),
    {
        match side {
            Side::Source => &self.source,
            Side::Target => &self.target,
        }
    }

    /// The peer on `side` read `data` from its socket.
    pub fn receive(&mut self, side: Side, data: &[u8])
        requires
            old(self).flow_wf(),
            0 < data@.len() <= CAPACITY,
            !old(self).peer_spec(side).has_pending(),
        ensures
            final(self).flow_wf(),
            received_chunk(*old(self), *final(self), side, data@),
    {
        match side {
            Side::Source => {
                let w = self.source.interest().writable;
                self.source.stage(data);
                self.source.set_interest(Interest { readable: false, writable: w });
                let r = self.target.interest().readable;
                self.target.set_interest(Interest { readable: r, writable: true });
            },
            Side::Target => {
                let w = self.target.interest().writable;
                self.target.stage(data);
                self.target.set_interest(Interest { readable: false, writable: w });
                let r = self.source.interest().readable;
                self.source.set_interest(Interest { readable: r, writable: true });
            },
        }
    }

    /// The socket of the peer on `side` accepted `k` of the bytes that its
    /// counterpart holds. Returns whether they are now all forwarded.
    pub fn transmitted(&mut self, side: Side, k: usize) -> (drained: bool)
        requires
            old(self).flow_wf(),
            k <= old(self).peer_spec(side.other()).pending_spec().len(),
        ensures
            final(self).flow_wf(),
            wrote_chunk(*old(self), *final(self), side, k as int),
            drained == (k == old(self).peer_spec(side.other()).pending_spec().len()),
    {
        match side {
            Side::Source => {
                self.target.advance(k);
                if self.target.pending_len() == 0 {
                    let r = self.source.interest().readable;
                    self.source.set_interest(Interest { readable: r, writable: false });
                    let w = self.target.interest().writable;
                    self.target.set_interest(Interest { readable: true, writable: w });
                    true
                } else {
                    false
                }
            },
            Side::Target => {
                self.source.advance(k);
                if self.source.pending_len() == 0 {
                    let r = self.target.interest().readable;
                    self.target.set_interest(Interest { readable: r, writable: false });
                    let w = self.source.interest().writable;
                    self.source.set_interest(Interest { readable: true, writable: w });
                    true
                } else {
                    false
                }
            },
        }
    }

    /// Invariant of the session stored under `key` when at most `max`
    /// sessions live at once.
    pub open spec fn wf(&self, key: int, max: int) -> bool {
        &&& self.flow_wf()
        &&& self.source.token_spec() == peer_token_spec(key, Side::Source, max)
        &&& self.target.token_spec() == peer_token_spec(key, Side::Target, max)
    }

    /// Both peers are well formed and both directions are coupled.
    pub open spec fn flow_wf(&self) -> bool {
        &&& self.source.wf()
        &&& self.target.wf()
        &&& direction_wf(self.source, self.target)
        &&& direction_wf(self.target, self.source)
    }
}

} // verus!
