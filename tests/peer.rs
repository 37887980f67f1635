use stalwart_jmap::peer::{
    backoff_delay, PeerEvent, PeerPhase, PeerState, PeerStep, RPC_MAX_BACKOFF_MS,
    RPC_MAX_CONNECT_ATTEMPTS,
};

#[test]
fn backoff_grows_and_is_capped() {
    assert_eq!(backoff_delay(1, 0), 2);
    assert_eq!(backoff_delay(3, 999), 8 + 999);
    assert_eq!(backoff_delay(10, 5), 1024 + 5);
    assert_eq!(backoff_delay(17, 999), 131072 + 999);
    assert_eq!(backoff_delay(18, 0), RPC_MAX_BACKOFF_MS);
    assert_eq!(backoff_delay(40, 999), RPC_MAX_BACKOFF_MS);
    for n in 0..30u32 {
        for jitter in [0u64, 500, 999] {
            let d = backoff_delay(n, jitter);
            let low = 2u64.pow(n).min(RPC_MAX_BACKOFF_MS);
            let high = (2u64.pow(n) + 1000).min(RPC_MAX_BACKOFF_MS);
            assert!(low <= d && d <= high);
        }
    }
}

#[test]
fn refused_peer_reports_pending_message_once() {
    let mut s = PeerState::new();
    let a = s.on_event(PeerEvent::Message { gossip: false, elapsed_ms: 0 });
    assert!(a.take_message);
    assert_eq!(a.next, PeerStep::Connect);
    let mut failed = 0;
    for n in 1..=(RPC_MAX_CONNECT_ATTEMPTS + 3) {
        let a = s.on_event(PeerEvent::ConnectFailed { jitter_ms: 123 });
        if a.fail_pending {
            failed += 1;
            assert_eq!(n, RPC_MAX_CONNECT_ATTEMPTS);
        }
        match a.next {
            PeerStep::Backoff { delay_ms } => {
                assert_eq!(delay_ms, (2u64.pow(n) + 123).min(RPC_MAX_BACKOFF_MS))
            }
            other => panic!("unexpected step {:?}", other),
        }
        let a = s.on_event(PeerEvent::TimedOut);
        assert_eq!(a.next, PeerStep::Connect);
    }
    assert_eq!(failed, 1);
    // Once through, the given-up message is not sent.
    let a = s.on_event(PeerEvent::Connected);
    assert_eq!(a.online, Some(true));
    assert_eq!(a.next, PeerStep::WaitMessage);
}

#[test]
fn messages_during_backoff() {
    let mut s = PeerState::new();
    s.on_event(PeerEvent::Message { gossip: false, elapsed_ms: 0 });
    let a = s.on_event(PeerEvent::ConnectFailed { jitter_ms: 100 });
    assert_eq!(a.next, PeerStep::Backoff { delay_ms: 102 });
    let a = s.on_event(PeerEvent::Message { gossip: false, elapsed_ms: 40 });
    assert!(a.fail_message);
    assert_eq!(a.next, PeerStep::Backoff { delay_ms: 62 });
    let a = s.on_event(PeerEvent::Message { gossip: true, elapsed_ms: 1 });
    assert!(a.take_message);
    assert!(!a.fail_message);
    assert_eq!(a.next, PeerStep::Connect);
    assert_eq!(s.attempts, 0);
    let a = s.on_event(PeerEvent::Connected);
    assert_eq!(a.online, Some(true));
    assert_eq!(a.next, PeerStep::Send);
}

#[test]
fn send_failure_goes_offline_and_inactivity_closes() {
    let mut s = PeerState::new();
    s.on_event(PeerEvent::Message { gossip: false, elapsed_ms: 0 });
    s.on_event(PeerEvent::Connected);
    let a = s.on_event(PeerEvent::Sent);
    assert_eq!(a.next, PeerStep::WaitMessage);
    let a = s.on_event(PeerEvent::Message { gossip: false, elapsed_ms: 0 });
    assert_eq!(a.next, PeerStep::Send);
    let a = s.on_event(PeerEvent::SendFailed);
    assert!(a.close_connection);
    assert_eq!(a.online, Some(false));
    assert!(!s.connected);
    s.on_event(PeerEvent::Message { gossip: false, elapsed_ms: 0 });
    s.on_event(PeerEvent::Connected);
    s.on_event(PeerEvent::Sent);
    let a = s.on_event(PeerEvent::TimedOut);
    assert!(a.close_connection);
    assert_eq!(a.online, None);
    let a = s.on_event(PeerEvent::MailboxClosed);
    assert_eq!(a.next, PeerStep::Exit);
    assert_eq!(s.phase, PeerPhase::Stopped);
}
