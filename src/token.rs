use vstd::prelude::*;

verus! {

/// Which half of a session a peer is.
#[derive(Clone, Copy, PartialEq, Eq, Structural, Debug)]
pub enum Side {
    /// The client-facing peer.
    Source,
    /// The upstream-facing peer.
    Target,
}

impl Side {
    pub open spec fn other(self) -> Side {
        match self {
            Side::Source => Side::Target,
            Side::Target => Side::Source,
        }
    }
}

/// The token of the peer on `side` of the session keyed `key`, when at most
/// `max` sessions live at once: sources use `[0, max)`, targets `[max, 2 max)`.
pub open spec fn peer_token_spec(key: int, side: Side, max: int) -> int {
    match side {
        Side::Source => key,
        Side::Target => key + max,
    }
}

/// The session key and side that a token denotes, if it denotes a peer.
pub open spec fn locate_spec(token: int, max: int) -> Option<(int, Side)> {
    if 0 <= token < max {
        Some((token, Side::Source))
    } else if max <= token < 2 * max {
        Some((token - max, Side::Target))
    } else {
        None
    }
}

pub fn peer_token(key: usize, side: Side, max: usize) -> (r: usize)
    requires
        key < max,
        2 * max <= usize::MAX,
    ensures
        r == peer_token_spec(key as int, side, max as int),
{
    match side {
        Side::Source => key,
        Side::Target => key + max,
    }
}

/// The token reserved for the listening socket: one past every peer token.
pub fn listener_token(max: usize) -> (r: usize)
    requires
        2 * max <= usize::MAX,
    ensures
        r == 2 * max,
        locate_spec(r as int, max as int) is None,
{
    2 * max
}

/// Resolves a token to its session key (the token modulo `max`) and side.
pub fn locate(token: usize, max: usize) -> (r: Option<(usize, Side)>)
    requires
        2 * max <= usize::MAX,
    ensures
        match r {
            Some((k, side)) => locate_spec(token as int, max as int) == Some((k as int, side)),
            None => locate_spec(token as int, max as int) is None,
        },
{
    if token < max {
        Some((token, Side::Source))
    } else if token < 2 * max {
        Some((token - max, Side::Target))
    } else {
        None
    }
}

/// Tokens and (session, side) pairs correspond one to one: every peer token
/// resolves to a session key below `max` whose peer on that side carries the
/// same token, and every such peer's token resolves back to it. The session
/// key of a peer token is the token modulo `max`.
pub proof fn lemma_token_bijection(token: int, key: int, side: Side, max: int)
    requires
        0 < max,
    ensures
        0 <= token < 2 * max ==> locate_spec(token, max) is Some,
        locate_spec(token, max) matches Some((k, s)) ==> {
            &&& 0 <= k < max
            &&& k == token % max
            &&& peer_token_spec(k, s, max) == token
        },
        0 <= key < max ==> locate_spec(peer_token_spec(key, side, max), max) == Some((key, side)),
{
    if 0 <= token < max {
        assert(token % max == token) by (nonlinear_arith)
            requires 0 <= token < max;
    } else if max <= token < 2 * max {
        assert(token % max == token - max) by (nonlinear_arith)
            requires max <= token < 2 * max;
    }
}

} // verus!
