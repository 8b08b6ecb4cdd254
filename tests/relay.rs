use tcp_relay::manager::{Action, Event, SessionManager};
use tcp_relay::peer::{Interest, Peer, CAPACITY};
use tcp_relay::session::Session;
use tcp_relay::token::{listener_token, locate, peer_token, Side};

fn sent(m: &mut SessionManager<u32>, token: usize, n: usize) -> Action {
    m.handle_event(token, Event::Sent(n))
}

#[test]
fn hello_is_relayed_and_echoed() {
    let mut m: SessionManager<u32> = SessionManager::new(4);
    let key = m.new_session(10, 20).unwrap();
    assert_eq!(key, 0);
    let client = peer_token(key, Side::Source, 4);
    let upstream = peer_token(key, Side::Target, 4);
    assert_eq!(upstream, 4);

    assert!(m.wants_read(client));
    assert_eq!(m.handle_event(client, Event::Received(b"hello".to_vec())), Action::Reregister);
    assert_eq!(m.outgoing(upstream).unwrap(), b"hello");
    assert_eq!(sent(&mut m, upstream, 5), Action::Reregister);
    assert_eq!(m.outgoing(upstream).unwrap(), b"");

    assert!(m.wants_read(upstream));
    assert_eq!(m.handle_event(upstream, Event::Received(b"hello".to_vec())), Action::Reregister);
    assert_eq!(m.outgoing(client).unwrap(), b"hello");
    assert_eq!(sent(&mut m, client, 5), Action::Reregister);
    assert!(m.wants_read(client));
    assert!(m.wants_read(upstream));
}

#[test]
fn large_payload_crosses_in_order() {
    let mut m: SessionManager<u32> = SessionManager::new(2);
    let key = m.new_session(1, 2).unwrap();
    let client = peer_token(key, Side::Source, 2);
    let upstream = peer_token(key, Side::Target, 2);
    let payload: Vec<u8> = (0..10 * CAPACITY).map(|i| (i * 7 % 251) as u8).collect();
    let mut arrived: Vec<u8> = Vec::new();
    for chunk in payload.chunks(CAPACITY) {
        assert!(m.wants_read(client));
        assert_eq!(m.handle_event(client, Event::Received(chunk.to_vec())), Action::Reregister);
        loop {
            let out = m.outgoing(upstream).unwrap().to_vec();
            let k = out.len().min(300);
            arrived.extend_from_slice(&out[..k]);
            let a = sent(&mut m, upstream, k);
            if k == out.len() {
                assert_eq!(a, Action::Reregister);
                break;
            }
            assert_eq!(a, Action::Wait);
        }
    }
    assert_eq!(arrived, payload);
}

#[test]
fn slow_consumer_stops_reads_until_drained() {
    let mut m: SessionManager<u32> = SessionManager::new(1);
    let key = m.new_session(1, 2).unwrap();
    let client = peer_token(key, Side::Source, 1);
    let upstream = peer_token(key, Side::Target, 1);
    let chunk = vec![9u8; CAPACITY];
    assert_eq!(m.handle_event(client, Event::Received(chunk.clone())), Action::Reregister);
    let s = m.get(key).unwrap();
    assert_eq!(s.source.interest(), Interest { readable: false, writable: false });
    assert_eq!(s.target.interest(), Interest { readable: true, writable: true });
    assert!(!m.wants_read(client));
    assert_eq!(s.source.pending_len(), CAPACITY);

    assert_eq!(m.handle_event(upstream, Event::WouldBlock), Action::Wait);
    assert_eq!(sent(&mut m, upstream, 0), Action::Wait);
    assert_eq!(sent(&mut m, upstream, 1000), Action::Wait);
    assert!(!m.wants_read(client));
    assert_eq!(m.outgoing(upstream).unwrap(), &chunk[1000..]);
    assert_eq!(sent(&mut m, upstream, CAPACITY - 1000), Action::Reregister);
    assert!(m.wants_read(client));
    let s = m.get(key).unwrap();
    assert_eq!(s.target.interest(), Interest { readable: true, writable: false });
}

#[test]
fn end_of_stream_tears_down_both_sides() {
    let mut m: SessionManager<u32> = SessionManager::new(3);
    let key = m.new_session(5, 6).unwrap();
    let upstream = peer_token(key, Side::Target, 3);
    assert_eq!(m.handle_event(upstream, Event::Received(Vec::new())), Action::Teardown);
    let s = m.release_session(key).unwrap();
    assert_eq!(*s.source.socket(), 5);
    assert_eq!(*s.target.socket(), 6);
    assert!(m.get(key).is_none());
    assert!(m.release_session(key).is_none());
    assert_eq!(m.handle_event(upstream, Event::Failed), Action::Unknown);
}

#[test]
fn failure_tears_down_session() {
    let mut m: SessionManager<u32> = SessionManager::new(3);
    let key = m.new_session(5, 6).unwrap();
    let client = peer_token(key, Side::Source, 3);
    assert_eq!(m.handle_event(client, Event::Failed), Action::Teardown);
    assert!(m.get(key).is_some());
}

#[test]
fn capacity_is_never_exceeded() {
    let mut m: SessionManager<u32> = SessionManager::new(2);
    assert_eq!(m.max_sessions(), 2);
    assert_eq!(m.new_session(1, 2), Some(0));
    assert_eq!(m.new_session(3, 4), Some(1));
    assert_eq!(m.new_session(5, 6), None);
    assert_eq!(*m.get(1).unwrap().source.socket(), 3);
}

#[test]
fn released_tokens_are_reused_lowest_first() {
    let mut m: SessionManager<u32> = SessionManager::new(3);
    assert_eq!(m.new_session(1, 2), Some(0));
    assert_eq!(m.new_session(3, 4), Some(1));
    assert_eq!(m.new_session(5, 6), Some(2));
    assert!(m.release_session(2).is_some());
    assert!(m.release_session(0).is_some());
    assert_eq!(m.new_session(7, 8), Some(0));
    assert_eq!(m.new_session(9, 10), Some(2));
    assert_eq!(m.new_session(11, 12), None);
    let s = m.get(2).unwrap();
    assert_eq!(*s.source.socket(), 9);
    assert_eq!(s.source.token(), 2);
    assert_eq!(s.target.token(), 5);
}

#[test]
fn new_session_watches_both_peers_for_reading() {
    let mut m: SessionManager<u32> = SessionManager::new(8);
    assert_eq!(m.new_session(1, 2), Some(0));
    assert_eq!(m.new_session(3, 4), Some(1));
    let s = m.get(1).unwrap();
    let readable = Interest { readable: true, writable: false };
    assert_eq!(s.source.interest(), readable);
    assert_eq!(s.target.interest(), readable);
    assert_eq!(s.source.token(), 1);
    assert_eq!(s.target.token(), 9);
    assert_eq!(s.source.pending_len(), 0);
    assert!(s.peer(Side::Target).pending().is_empty());
}

#[test]
fn unknown_tokens_are_ignored() {
    let mut m: SessionManager<u32> = SessionManager::new(2);
    assert_eq!(m.handle_event(0, Event::WouldBlock), Action::Unknown);
    assert_eq!(m.handle_event(17, Event::Sent(3)), Action::Unknown);
    assert!(m.outgoing(3).is_none());
    assert!(!m.wants_read(1));
    assert!(m.get(5).is_none());
}

#[test]
fn tokens_map_to_sessions_and_sides() {
    assert_eq!(locate(3, 4), Some((3, Side::Source)));
    assert_eq!(locate(7, 4), Some((3, Side::Target)));
    assert_eq!(locate(8, 4), None);
    assert_eq!(listener_token(4), 8);
    assert_eq!(peer_token(2, Side::Target, 1024), 1026);
    for t in 0..2048usize {
        let (k, side) = locate(t, 1024).unwrap();
        assert_eq!(k, t % 1024);
        assert_eq!(peer_token(k, side, 1024), t);
    }
}

#[test]
fn empty_registry_refuses_every_connection() {
    let mut m: SessionManager<u32> = SessionManager::new(0);
    assert_eq!(m.new_session(1, 2), None);
    assert_eq!(listener_token(0), 0);
}

#[test]
fn free_token_reports_room() {
    let mut m: SessionManager<u32> = SessionManager::new(1);
    assert!(m.has_free_token());
    assert_eq!(m.new_session(1, 2), Some(0));
    assert!(!m.has_free_token());
    assert!(m.release_session(0).is_some());
    assert!(m.has_free_token());
}

#[test]
fn client_end_of_stream_tears_down_session() {
    let mut m: SessionManager<u32> = SessionManager::new(2);
    assert_eq!(m.new_session(1, 2), Some(0));
    assert_eq!(m.new_session(3, 4), Some(1));
    assert_eq!(m.handle_event(1, Event::Received(Vec::new())), Action::Teardown);
    let s = m.release_session(1).unwrap();
    assert_eq!((*s.source.socket(), *s.target.socket()), (3, 4));
    assert!(m.get(0).is_some());
    assert_eq!(m.handle_event(3, Event::WouldBlock), Action::Unknown);
}

#[test]
fn session_moves_chunks_in_both_directions() {
    let mut s: Session<u8> = Session::new(1, 2);
    assert_eq!(s.source.interest(), Interest::empty());
    assert_eq!(s.target.token(), 0);
    s.receive(Side::Target, b"abc");
    assert_eq!(s.target.pending(), b"abc");
    assert!(s.source.interest().writable);
    assert!(!s.target.interest().readable);
    assert!(!s.transmitted(Side::Source, 2));
    assert_eq!(s.target.pending(), b"c");
    assert!(s.transmitted(Side::Source, 1));
    assert!(s.target.interest().readable);
    assert!(!s.source.interest().writable);
    assert_eq!(s.target.pending_len(), 0);
}

#[test]
fn fresh_peer_holds_nothing() {
    let p: Peer<u16> = Peer::with_stream(7);
    assert_eq!(*p.socket(), 7);
    assert_eq!(p.pending_len(), 0);
    assert!(p.pending().is_empty());
    assert_eq!(p.interest(), Interest { readable: false, writable: false });
    assert_eq!(p.token(), 0);
}
