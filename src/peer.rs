use vstd::prelude::*;
use vstd::slice::slice_subrange;

verus! {

/// Capacity of the fixed byte buffer that every peer owns.
pub const CAPACITY: usize = 1024;

/// Readiness conditions a peer's socket is watched for.
#[derive(Clone, Copy, PartialEq, Eq, Structural, Debug)]
pub struct Interest {
    pub readable: bool,
    pub writable: bool,
}

impl Interest {
    pub fn empty() -> (r: Interest)
        ensures
            !r.readable,
            !r.writable,
    {
        Interest { readable: false, writable: false }
    }
}

/// One socket endpoint of a session with the chunk it last read and has not
/// yet seen forwarded. `buffer[first..last]` is the unsent range.
pub struct Peer<S> {
    socket: S,
    buffer: Vec<u8>,
    first: usize,
    last: usize,
    interest: Interest,
    token: usize,
    /// Every byte read from this peer's socket, in order.
    received: Ghost<Seq<u8>>,
    /// Every byte of this peer's stream written to the counterpart, in order.
    delivered: Ghost<Seq<u8>>,
}

impl<S> Peer<S> {
    pub closed spec fn wf(&self) -> bool {
        &&& self.buffer@.len() == CAPACITY
        &&& self.first <= self.last <= CAPACITY
        &&& self.received@ == self.delivered@ + self.pending_spec()
    }

    /// The bytes read from this peer and not yet written to its counterpart.
    pub closed spec fn pending_spec(&self) -> Seq<u8> {
        self.buffer@.subrange(self.first as int, self.last as int)
    }

    pub closed spec fn received_spec(&self) -> Seq<u8> {
        self.received@
    }

    pub closed spec fn delivered_spec(&self) -> Seq<u8> {
        self.delivered@
    }

    pub closed spec fn socket_spec(&self) -> S {
        self.socket
    }

    pub closed spec fn interest_spec(&self) -> Interest {
        self.interest
    }

    pub closed spec fn token_spec(&self) -> usize {
        self.token
    }

    pub open spec fn has_pending(&self) -> bool {
        self.pending_spec().len() > 0
    }

    /// A peer around `socket` that has transferred nothing yet and is not
    /// watched for anything.
    pub open spec fn is_fresh(&self, socket: S) -> bool {
        &&& self.wf()
        &&& self.socket_spec() == socket
        &&& self.pending_spec() == Seq::<u8>::empty()
        &&& self.received_spec() == Seq::<u8>::empty()
        &&& self.delivered_spec() == Seq::<u8>::empty()
        &&& self.interest_spec() == (Interest { readable: false, writable: false })
        &&& self.token_spec() == 0
    }

    /// What a well-formed peer guarantees about its stream: the bytes read
    /// from its socket are exactly those already forwarded followed by those
    /// still buffered, so nothing is dropped, duplicated or reordered, and at
    /// most one buffer's worth is ever held.
    pub proof fn lemma_stream_accounting(&self)
        requires
            self.wf(),
        ensures
            self.received_spec() == self.delivered_spec() + self.pending_spec(),
            self.pending_spec().len() <= CAPACITY,
    {
    }

    /// Once a peer's chunk is drained, its counterpart has written exactly
    /// the bytes read from it, in order, with none lost or repeated: any
    /// stream, however many buffers long, arrives intact.
    pub proof fn lemma_drained_stream_is_exact(&self)
        requires
            self.wf(),
            !self.has_pending(),
        ensures
            self.delivered_spec() == self.received_spec(),
    {
        assert(self.received@ =~= self.delivered@);
    }

    /// A peer around an already connected socket: nothing buffered, nothing
    /// watched, nothing transferred yet.
    pub fn with_stream(socket: S) -> (r: Peer<S>)
        ensures
            r.is_fresh(socket),
    {
        let r = Peer {
            socket,
            buffer: vec![0u8; CAPACITY],
            first: 0,
            last: 0,
            interest: Interest::empty(),
            token: 0,
            received: Ghost(Seq::empty()),
            delivered: Ghost(Seq::empty()),
        };
        assert(r.pending_spec() =~= Seq::<u8>::empty());
        assert(r.received@ =~= r.delivered@ + r.pending_spec());
        r
    }

    /// The unsent range of the buffer.
    pub fn pending(&self) -> (r: &[u8])
        requires
            self.wf(),
        ensures
            r@ == self.pending_spec(),
    {
        slice_subrange(self.buffer.as_slice(), self.first, self.last)
    }

    pub fn pending_len(&self) -> (r: usize)
        requires
            self.wf(),
        ensures
            r == self.pending_spec().len(),
    {
        self.last - self.first
    }

    pub fn socket(&self) -> (r: &S)
        ensures
            *r == self.socket_spec(),
    {
        &self.socket
    }

    pub fn interest(&self) -> (r: Interest)
        ensures
            r == self.interest_spec(),
    {
        self.interest
    }

    pub fn token(&self) -> (r: usize)
        ensures
            r == self.token_spec(),
    {
        self.token
    }

    pub(crate) fn set_interest(&mut self, interest: Interest)
        ensures
            final(self).interest_spec() == interest,
            final(self).token_spec() == old(self).token_spec(),
            final(self).socket_spec() == old(self).socket_spec(),
            final(self).pending_spec() == old(self).pending_spec(),
            final(self).received_spec() == old(self).received_spec(),
            final(self).delivered_spec() == old(self).delivered_spec(),
            old(self).wf() ==> final(self).wf(),
    {
        self.interest = interest;
    }

    pub(crate) fn set_token(&mut self, token: usize)
        ensures
            final(self).token_spec() == token,
            final(self).interest_spec() == old(self).interest_spec(),
            final(self).socket_spec() == old(self).socket_spec(),
            final(self).pending_spec() == old(self).pending_spec(),
            final(self).received_spec() == old(self).received_spec(),
            final(self).delivered_spec() == old(self).delivered_spec(),
            old(self).wf() ==> final(self).wf(),
    {
        self.token = token;
    }

    /// Takes in a chunk just read from this peer's socket. The previous chunk
    /// must have been forwarded in full: nothing already buffered is lost.
    pub(crate) fn stage(&mut self, data: &[u8])
        requires
            old(self).wf(),
            !old(self).has_pending(),
            data@.len() <= CAPACITY,
        ensures
            final(self).wf(),
            final(self).pending_spec() == data@,
            final(self).received_spec() == old(self).received_spec() + data@,
            final(self).delivered_spec() == old(self).delivered_spec(),
            final(self).interest_spec() == old(self).interest_spec(),
            final(self).token_spec() == old(self).token_spec(),
            final(self).socket_spec() == old(self).socket_spec(),
    {
        let n = data.len();
        let mut i: usize = 0;
        while i < n
            invariant
                n == data@.len(),
                n <= CAPACITY,
                i <= n,
                self.buffer@.len() == CAPACITY,
                forall|j: int| 0 <= j < i ==> self.buffer@[j] == data@[j],
                self.received@ == old(self).received@,
                self.delivered@ == old(self).delivered@,
                self.first == old(self).first,
                self.last == old(self).last,
                self.interest == old(self).interest,
                self.token == old(self).token,
                self.socket == old(self).socket,
            decreases n - i,
        {
            self.buffer.set(i, data[i]);
            i = i + 1;
        }
        self.first = 0;
        self.last = n;
        assert(self.pending_spec() =~= data@);
        self.received = Ghost(self.received@ + data@);
        assert(old(self).pending_spec() =~= Seq::<u8>::empty());
        assert(old(self).received@ =~= old(self).delivered@);
    }

    /// Records that the counterpart's socket accepted the first `k` unsent
    /// bytes.
    pub(crate) fn advance(&mut self, k: usize)
        requires
            old(self).wf(),
            k <= old(self).pending_spec().len(),
        ensures
            final(self).wf(),
            final(self).pending_spec() == old(self).pending_spec().subrange(
                k as int,
                old(self).pending_spec().len() as int,
            ),
            final(self).delivered_spec() == old(self).delivered_spec()
                + old(self).pending_spec().subrange(0, k as int),
            final(self).received_spec() == old(self).received_spec(),
            final(self).interest_spec() == old(self).interest_spec(),
            final(self).token_spec() == old(self).token_spec(),
            final(self).socket_spec() == old(self).socket_spec(),
    {
        let ghost sent = self.pending_spec().subrange(0, k as int);
        self.delivered = Ghost(self.delivered@ + sent);
        self.first = self.first + k;
        assert(self.pending_spec() =~= old(self).pending_spec().subrange(
            k as int,
            old(self).pending_spec().len() as int,
        ));
        assert(old(self).pending_spec() =~= sent + self.pending_spec());
        assert(self.received@ =~= self.delivered@ + self.pending_spec());
    }
}

} // verus!
