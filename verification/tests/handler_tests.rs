use std::sync::mpsc::{sync_channel, Receiver};

use p2p_liveness::handler::{
    Event, NotifyOutcome, PeerId, PingHandler, CHECK_TIMEOUT_TOKEN, SEND_PING_TOKEN,
};
use p2p_liveness::message::PingMessage;
use p2p_liveness::nonce_of_millis;

const INTERVAL: u64 = 15_000;
const TIMEOUT: u64 = 30_000;

fn new_handler() -> (PingHandler, Receiver<Event>) {
    let (tx, rx) = sync_channel(64);
    (PingHandler::new(INTERVAL, TIMEOUT, tx), rx)
}

fn peer(tag: u8) -> PeerId {
    PeerId::new(vec![tag, tag, tag])
}

#[test]
fn init_registers_both_timers() {
    let (h, _rx) = new_handler();
    assert_eq!(h.init(), vec![(INTERVAL, SEND_PING_TOKEN), (TIMEOUT, CHECK_TIMEOUT_TOKEN)]);
}

#[test]
fn ping_pong_round_trip_scenario() {
    let (mut h, _rx) = new_handler();
    let p = peer(7);
    let t0: u64 = 1_000_000;
    assert_eq!(h.connected(7, Some(p.clone()), t0), None);
    assert_eq!(h.status_of(7), Some((false, t0)));

    let t1 = t0 + INTERVAL;
    let batch = h.send_ping_tick(t1).expect("session 7 is eligible");
    assert_eq!(batch.targets, vec![7]);
    assert_eq!(batch.data, PingMessage::build_ping(nonce_of_millis(t1)));
    assert_eq!(h.status_of(7), Some((true, t1)));

    let t2 = t1 + 250;
    let out = h.received(7, &PingMessage::build_pong(nonce_of_millis(t1)), t2);
    assert!(out.reply.is_none());
    match out.event {
        Some(Event::Pong(who, round_trip)) => {
            assert_eq!(who, p);
            assert_eq!(round_trip, 250);
        }
        other => panic!("expected a pong event, got {:?}", other),
    }
    assert_eq!(h.status_of(7), Some((false, t1)));
}

#[test]
fn wrong_nonce_is_misbehaviour_and_changes_nothing() {
    let (mut h, _rx) = new_handler();
    let p = peer(7);
    let t0: u64 = 1_000_000;
    h.connected(7, Some(p.clone()), t0);
    let t1 = t0 + INTERVAL;
    h.send_ping_tick(t1).expect("session 7 is eligible");

    let wrong = nonce_of_millis(t1).wrapping_add(1);
    let out = h.received(7, &PingMessage::build_pong(wrong), t1 + 10);
    assert!(out.reply.is_none());
    assert_eq!(out.event, Some(Event::UnexpectedError(p)));
    // still waiting for the real answer
    assert_eq!(h.status_of(7), Some((true, t1)));
}

#[test]
fn pong_without_outstanding_ping_is_misbehaviour() {
    let (mut h, _rx) = new_handler();
    let p = peer(3);
    h.connected(3, Some(p.clone()), 500);
    let out = h.received(3, &PingMessage::build_pong(nonce_of_millis(500)), 600);
    assert_eq!(out.event, Some(Event::UnexpectedError(p)));
    assert_eq!(h.status_of(3), Some((false, 500)));
}

#[test]
fn ping_on_untracked_session_is_still_answered() {
    let (mut h, _rx) = new_handler();
    let out = h.received(42, &PingMessage::build_ping(5), 100);
    assert_eq!(out.reply, Some(PingMessage::build_pong(5)));
    assert!(out.event.is_none());
    assert!(out.close.is_none());
    assert_eq!(h.status_of(42), None);
}

#[test]
fn pong_on_untracked_session_requests_close() {
    let (mut h, _rx) = new_handler();
    let out = h.received(42, &PingMessage::build_pong(5), 100);
    assert!(out.reply.is_none());
    assert!(out.event.is_none());
    assert_eq!(out.close, Some(42));
    assert_eq!(h.status_of(42), None);
}

#[test]
fn undecodable_bytes_on_untracked_session_request_close() {
    let (mut h, _rx) = new_handler();
    let out = h.received(42, &[9, 9, 9], 100);
    assert!(out.reply.is_none());
    assert!(out.event.is_none());
    assert_eq!(out.close, Some(42));
}

#[test]
fn ping_is_always_answered_with_echoed_nonce() {
    let (mut h, _rx) = new_handler();
    let p = peer(5);
    h.connected(5, Some(p.clone()), 100);
    let out = h.received(5, &PingMessage::build_ping(0xDEAD_BEEF), 150);
    assert_eq!(out.reply, Some(PingMessage::build_pong(0xDEAD_BEEF)));
    assert_eq!(out.event, Some(Event::Ping(p)));
    assert!(out.close.is_none());
    // answering a ping needs no outbound state
    assert_eq!(h.status_of(5), Some((false, 100)));
}

#[test]
fn undecodable_bytes_are_misbehaviour_but_not_fatal() {
    let (mut h, _rx) = new_handler();
    let p = peer(5);
    h.connected(5, Some(p.clone()), 100);
    let out = h.received(5, &[9, 9, 9], 150);
    assert!(out.reply.is_none());
    assert_eq!(out.event, Some(Event::UnexpectedError(p)));
    assert!(out.close.is_none());
    // the session stays tracked
    assert_eq!(h.status_of(5), Some((false, 100)));
}

#[test]
fn open_is_idempotent_and_keeps_the_first_probe_time() {
    let (mut h, _rx) = new_handler();
    let p = peer(1);
    assert_eq!(h.connected(1, Some(p.clone()), 100), None);
    assert_eq!(h.connected(1, Some(p.clone()), 999), None);
    assert_eq!(h.status_of(1), Some((false, 100)));
}

#[test]
fn open_without_peer_identity_requests_close_and_tracks_nothing() {
    let (mut h, _rx) = new_handler();
    assert_eq!(h.connected(9, None, 100), Some(9));
    assert_eq!(h.status_of(9), None);
}

#[test]
fn close_removes_the_session() {
    let (mut h, _rx) = new_handler();
    h.connected(1, Some(peer(1)), 100);
    h.disconnected(1);
    assert_eq!(h.status_of(1), None);
    // closing an unknown session is a no-op
    h.disconnected(77);
}

#[test]
fn processing_session_is_not_reprobed() {
    let (mut h, _rx) = new_handler();
    h.connected(1, Some(peer(1)), 100);
    let t1: u64 = 20_000;
    h.send_ping_tick(t1).expect("session 1 is eligible");
    assert_eq!(h.status_of(1), Some((true, t1)));
    // the next tick skips it entirely: no batch, timestamp kept
    assert!(h.send_ping_tick(t1 + INTERVAL).is_none());
    assert_eq!(h.status_of(1), Some((true, t1)));
}

#[test]
fn shared_nonce_broadcast_reaches_every_eligible_session() {
    let (mut h, _rx) = new_handler();
    for sid in [1u64, 2, 3, 4] {
        h.connected(sid, Some(peer(sid as u8)), 100);
    }
    // probe everyone once, then let only sessions 1..3 answer: session 4 keeps
    // its ping in flight and must be skipped by the next tick
    let t1: u64 = 50_000;
    let first = h.send_ping_tick(t1).expect("all four eligible");
    assert_eq!(first.targets.len(), 4);
    let first_pong = PingMessage::build_pong(nonce_of_millis(t1));
    for sid in [1u64, 2, 3] {
        let out = h.received(sid, &first_pong, t1 + 10);
        assert!(matches!(out.event, Some(Event::Pong(_, _))));
    }

    let t2 = t1 + INTERVAL;
    let batch = h.send_ping_tick(t2).expect("sessions 1..3 eligible again");
    let mut targets = batch.targets.clone();
    targets.sort();
    assert_eq!(targets, vec![1, 2, 3]);
    assert_eq!(batch.data, PingMessage::build_ping(nonce_of_millis(t2)));

    // every probed session independently accepts a pong echoing the one nonce
    let pong = PingMessage::build_pong(nonce_of_millis(t2));
    for sid in [1u64, 2, 3] {
        let out = h.received(sid, &pong, t2 + 40);
        match out.event {
            Some(Event::Pong(who, round_trip)) => {
                assert_eq!(who, peer(sid as u8));
                assert_eq!(round_trip, 40);
            }
            other => panic!("expected a pong event for {}, got {:?}", sid, other),
        }
    }
}

#[test]
fn timeouts_repeat_until_the_state_changes() {
    let (mut h, _rx) = new_handler();
    h.connected(1, Some(peer(1)), 100);
    h.connected(2, Some(peer(2)), 100);
    let t1: u64 = 20_000;
    h.send_ping_tick(t1).expect("both eligible");

    // not yet timed out
    let early = h.check_timeout_tick(t1 + TIMEOUT - 1);
    assert!(early.sessions.is_empty());
    assert!(early.events.is_empty());

    // timed out: both reported, exactly once each
    let report = h.check_timeout_tick(t1 + TIMEOUT);
    let mut sessions = report.sessions.clone();
    sessions.sort();
    assert_eq!(sessions, vec![1, 2]);
    assert_eq!(report.events.len(), 2);
    for event in &report.events {
        assert!(matches!(event, Event::Timeout(_)));
    }

    // a later check without a state change reports them again
    let again = h.check_timeout_tick(t1 + TIMEOUT + 5_000);
    assert_eq!(again.sessions.len(), 2);

    // an accepted pong on session 1 ends its reports; session 2 keeps timing out
    h.received(1, &PingMessage::build_pong(nonce_of_millis(t1)), t1 + TIMEOUT + 6_000);
    let after = h.check_timeout_tick(t1 + TIMEOUT + 7_000);
    assert_eq!(after.sessions, vec![2]);
    assert_eq!(after.events, vec![Event::Timeout(peer(2))]);
}

#[test]
fn notify_dispatches_on_the_registered_tokens() {
    let (mut h, _rx) = new_handler();
    h.connected(1, Some(peer(1)), 100);
    match h.notify(SEND_PING_TOKEN, 20_000) {
        NotifyOutcome::Probe(Some(batch)) => assert_eq!(batch.targets, vec![1]),
        other => panic!("expected a probe batch, got {:?}", shape_of(&other)),
    }
    match h.notify(CHECK_TIMEOUT_TOKEN, 20_000 + TIMEOUT) {
        NotifyOutcome::Timeouts(report) => assert_eq!(report.sessions, vec![1]),
        other => panic!("expected a timeout report, got {:?}", shape_of(&other)),
    }
}

fn shape_of(outcome: &NotifyOutcome) -> &'static str {
    match outcome {
        NotifyOutcome::Probe(Some(_)) => "a probe batch",
        NotifyOutcome::Probe(None) => "an empty probe",
        NotifyOutcome::Timeouts(_) => "a timeout report",
    }
}

#[test]
fn events_flow_through_the_channel_best_effort() {
    let (tx, rx) = sync_channel(1);
    let mut h = PingHandler::new(INTERVAL, TIMEOUT, tx);
    assert!(h.send_event(Event::Ping(peer(1))));
    // the channel is full now: the event is dropped, nothing blocks or fails
    assert!(!h.send_event(Event::Timeout(peer(1))));
    assert_eq!(rx.try_recv(), Ok(Event::Ping(peer(1))));
    // room again
    assert!(h.send_event(Event::Pong(peer(2), 12)));
    assert_eq!(rx.try_recv(), Ok(Event::Pong(peer(2), 12)));
    // a closed channel only means the event is lost
    drop(rx);
    assert!(!h.send_event(Event::Ping(peer(3))));
}
