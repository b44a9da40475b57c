use chat_relay::coordinator::{Action, Coordinator, Event, Notice, BAN_WINDOW_MS};
use chat_relay::framing::FrameBuffer;

fn token() -> Vec<u8> {
    b"0123ABCD".to_vec()
}

#[test]
fn connect_prompts_for_token() {
    let mut c = Coordinator::new(token(), true);
    let acts = c.on_connected(1, 10, 1000);
    assert_eq!(
        acts,
        vec![Action::Send { host: 1, port: 10, notice: Notice::AuthPrompt }]
    );
    assert!(c.has_session(1, 10));
    assert_eq!(c.session_authed(1, 10), Some(false));
    assert_eq!(c.session_strikes(1, 10), Some(0));
}

#[test]
fn connect_without_auth_is_silent_and_authenticated() {
    let mut c = Coordinator::new(token(), false);
    let acts = c.on_connected(1, 10, 1000);
    assert!(acts.is_empty());
    assert_eq!(c.session_authed(1, 10), Some(true));
}

#[test]
fn correct_token_authenticates_and_broadcasts() {
    let mut c = Coordinator::new(token(), true);
    c.on_connected(1, 10, 1000);
    let acts = c.on_message(1, 10, b"0123ABCD\n", 1100);
    assert_eq!(
        acts,
        vec![Action::Send { host: 1, port: 10, notice: Notice::Welcome }]
    );
    assert_eq!(c.session_authed(1, 10), Some(true));

    c.on_connected(2, 20, 1200);
    let acts = c.on_message(2, 20, b"0123ABCD\n", 1300);
    assert_eq!(
        acts,
        vec![Action::Send { host: 2, port: 20, notice: Notice::Welcome }]
    );

    let acts = c.on_message(1, 10, b"hello\n", 2000);
    assert_eq!(
        acts,
        vec![Action::Send {
            host: 2,
            port: 20,
            notice: Notice::Chat { line: b"hello".to_vec() },
        }]
    );
}

#[test]
fn broadcast_skips_unauthenticated_sessions() {
    let mut c = Coordinator::new(token(), true);
    c.on_connected(1, 10, 1000);
    c.on_message(1, 10, b"0123ABCD\n", 1100);
    c.on_connected(2, 20, 1200);
    c.on_connected(3, 30, 1300);
    c.on_message(3, 30, b"0123ABCD\n", 1400);
    // host 2 never authenticated; only host 3 receives the line.
    let acts = c.on_message(1, 10, b"hi\n", 3000);
    assert_eq!(
        acts,
        vec![Action::Send { host: 3, port: 30, notice: Notice::Chat { line: b"hi".to_vec() } }]
    );
}

#[test]
fn wrong_token_rejected_without_ban() {
    let mut c = Coordinator::new(token(), true);
    c.on_connected(1, 10, 1000);
    let acts = c.on_message(1, 10, b"wrong\n", 1100);
    assert_eq!(
        acts,
        vec![
            Action::Send { host: 1, port: 10, notice: Notice::Rejected },
            Action::Shutdown { host: 1, port: 10 },
        ]
    );
    assert!(!c.has_session(1, 10));
    assert_eq!(c.ban_started(1), None);

    // Reconnecting immediately is allowed: the rejection was no strike.
    let acts = c.on_connected(1, 10, 1200);
    assert_eq!(
        acts,
        vec![Action::Send { host: 1, port: 10, notice: Notice::AuthPrompt }]
    );
    assert_eq!(c.session_strikes(1, 10), Some(0));
}

#[test]
fn ten_rate_violations_ban_the_origin() {
    let mut c = Coordinator::new(token(), false);
    c.on_connected(5, 50, 1000);
    // First message is accepted and stamps the session.
    let acts = c.on_message(5, 50, b"x\n", 1000);
    assert!(acts.is_empty());
    // Nine early messages strike without any notice.
    for k in 1..10u64 {
        let acts = c.on_message(5, 50, b"x\n", 1000 + k);
        assert!(acts.is_empty());
        assert_eq!(c.session_strikes(5, 50), Some(k as u32));
    }
    // The tenth violation reaches the strike limit: ban, notice, shutdown.
    let acts = c.on_message(5, 50, b"x\n", 1010);
    assert_eq!(
        acts,
        vec![
            Action::Send { host: 5, port: 50, notice: Notice::Banned },
            Action::Shutdown { host: 5, port: 50 },
        ]
    );
    assert!(!c.has_session(5, 50));
    assert_eq!(c.ban_started(5), Some(1010));

    // A reconnection inside the window is told the remaining time and cut off.
    let acts = c.on_connected(5, 51, 1500);
    assert_eq!(
        acts,
        vec![
            Action::Send {
                host: 5,
                port: 51,
                notice: Notice::BanNotice { remaining_ms: BAN_WINDOW_MS - 490 },
            },
            Action::Shutdown { host: 5, port: 51 },
        ]
    );
    assert!(!c.has_session(5, 51));
}

#[test]
fn ban_expires_after_full_window() {
    let mut c = Coordinator::new(token(), false);
    c.on_connected(5, 50, 1000);
    c.on_message(5, 50, b"x\n", 1000);
    for k in 1..11u64 {
        c.on_message(5, 50, b"x\n", 1000 + k);
    }
    assert_eq!(c.ban_started(5), Some(1010));
    // Once the window has fully elapsed the origin is admitted afresh.
    let acts = c.on_connected(5, 60, 1010 + BAN_WINDOW_MS);
    assert!(acts.is_empty());
    assert!(c.has_session(5, 60));
    assert_eq!(c.session_strikes(5, 60), Some(0));
    assert_eq!(c.ban_started(5), None);
}

#[test]
fn ban_notice_remaining_decreases_across_attempts() {
    let mut c = Coordinator::new(token(), false);
    c.on_connected(7, 70, 1000);
    c.on_message(7, 70, b"x\n", 1000);
    for k in 1..11u64 {
        c.on_message(7, 70, b"x\n", 1000 + k);
    }
    let remaining_at = |c: &mut Coordinator, now: u64| -> u64 {
        let acts = c.on_connected(7, 71, now);
        match &acts[0] {
            Action::Send { notice: Notice::BanNotice { remaining_ms }, .. } => *remaining_ms,
            other => panic!("expected a ban notice, got {:?}", other),
        }
    };
    let r1 = remaining_at(&mut c, 2000);
    let r2 = remaining_at(&mut c, 3000);
    let r3 = remaining_at(&mut c, 4500);
    assert!(r1 > r2 && r2 > r3);
    assert_eq!(r1, BAN_WINDOW_MS - 990);
}

#[test]
fn malformed_payload_strikes_before_authentication() {
    let mut c = Coordinator::new(token(), true);
    c.on_connected(1, 10, 1000);
    let acts = c.on_message(1, 10, &[0xff, 0xfe, b'\n'], 1100);
    assert!(acts.is_empty());
    assert_eq!(c.session_strikes(1, 10), Some(1));
    assert_eq!(c.session_authed(1, 10), Some(false));
    assert_eq!(c.ban_started(1), None);
}

#[test]
fn malformed_payload_strikes_even_when_on_time() {
    let mut c = Coordinator::new(token(), false);
    c.on_connected(1, 10, 1000);
    c.on_message(1, 10, b"ok\n", 1000);
    // Well past the interval, but undecodable: a strike, nothing relayed.
    let acts = c.on_message(1, 10, &[0xc0, b'\n'], 5000);
    assert!(acts.is_empty());
    assert_eq!(c.session_strikes(1, 10), Some(1));
}

#[test]
fn early_message_is_not_relayed() {
    let mut c = Coordinator::new(token(), false);
    c.on_connected(1, 10, 1000);
    c.on_connected(2, 20, 1000);
    let acts = c.on_message(1, 10, b"one\n", 2000);
    assert_eq!(acts.len(), 1);
    // The next message arrives before the interval has passed.
    let acts = c.on_message(1, 10, b"two\n", 2500);
    assert!(acts.is_empty());
    assert_eq!(c.session_strikes(1, 10), Some(1));
}

#[test]
fn accepted_message_resets_strikes() {
    let mut c = Coordinator::new(token(), false);
    c.on_connected(1, 10, 1000);
    c.on_message(1, 10, b"a\n", 2000);
    c.on_message(1, 10, b"b\n", 2100);
    assert_eq!(c.session_strikes(1, 10), Some(1));
    c.on_message(1, 10, b"c\n", 3000);
    assert_eq!(c.session_strikes(1, 10), Some(0));
}

#[test]
fn authentication_keeps_earlier_strikes() {
    let mut c = Coordinator::new(token(), true);
    c.on_connected(1, 10, 1000);
    // One malformed pre-auth payload: a strike, but the session stays.
    c.on_message(1, 10, &[0xff, b'\n'], 1100);
    assert_eq!(c.session_strikes(1, 10), Some(1));
    let acts = c.on_message(1, 10, b"0123ABCD\n", 1200);
    assert_eq!(
        acts,
        vec![Action::Send { host: 1, port: 10, notice: Notice::Welcome }]
    );
    // Authenticating is not an accepted chat message: no strike reset.
    assert_eq!(c.session_strikes(1, 10), Some(1));
}

#[test]
fn banning_one_connection_keeps_its_origins_other_session() {
    let mut c = Coordinator::new(token(), false);
    c.on_connected(5, 50, 1000);
    c.on_connected(5, 51, 1000);
    c.on_message(5, 50, b"x\n", 1000);
    for k in 1..11u64 {
        c.on_message(5, 50, b"x\n", 1000 + k);
    }
    // The struck session is gone and its origin banned, but the origin's
    // other live session is untouched.
    assert!(!c.has_session(5, 50));
    assert!(c.has_session(5, 51));
    assert_eq!(c.ban_started(5), Some(1010));
    // New connections from that origin are blocked.
    let acts = c.on_connected(5, 52, 2000);
    assert!(matches!(acts[1], Action::Shutdown { host: 5, port: 52 }));
    assert!(!c.has_session(5, 52));
}

#[test]
fn message_from_unknown_address_is_ignored() {
    let mut c = Coordinator::new(token(), true);
    let acts = c.on_message(9, 90, b"hello\n", 1000);
    assert!(acts.is_empty());
    assert!(!c.has_session(9, 90));
}

#[test]
fn disconnect_removes_the_session() {
    let mut c = Coordinator::new(token(), true);
    c.on_connected(1, 10, 1000);
    assert!(c.has_session(1, 10));
    let acts = c.on_disconnected(1, 10);
    assert!(acts.is_empty());
    assert!(!c.has_session(1, 10));
    // A second disconnect for the same address is a no-op.
    let acts = c.on_disconnected(1, 10);
    assert!(acts.is_empty());
}

#[test]
fn handle_event_dispatches_by_event_kind() {
    let mut c = Coordinator::new(token(), true);
    let acts = c.handle_event(Event::Connected { host: 1, port: 10 }, 1000);
    assert_eq!(
        acts,
        vec![Action::Send { host: 1, port: 10, notice: Notice::AuthPrompt }]
    );
    let acts = c.handle_event(
        Event::Message { host: 1, port: 10, bytes: b"0123ABCD\n".to_vec() },
        1100,
    );
    assert_eq!(
        acts,
        vec![Action::Send { host: 1, port: 10, notice: Notice::Welcome }]
    );
    let acts = c.handle_event(Event::Disconnected { host: 1, port: 10 }, 1200);
    assert!(acts.is_empty());
    assert!(!c.has_session(1, 10));
    assert_eq!(c.session_count(), 0);
    assert!(c.auth_required());
}

#[test]
fn reframed_stream_drives_the_coordinator() {
    let mut fb = FrameBuffer::new();
    let mut c = Coordinator::new(token(), false);
    c.on_connected(1, 10, 0);
    c.on_connected(2, 20, 0);
    let mut now = 0u64;
    let mut lines: Vec<Vec<u8>> = Vec::new();
    for frame in fb.push_chunk(b"first\nsecond\ntail") {
        now += 2000;
        let acts = c.on_message(1, 10, &frame, now);
        match acts.as_slice() {
            [Action::Send { host: 2, port: 20, notice: Notice::Chat { line } }] => {
                lines.push(line.clone());
            }
            other => panic!("expected one chat send, got {:?}", other),
        }
    }
    assert_eq!(lines, vec![b"first".to_vec(), b"second".to_vec()]);
    assert_eq!(fb.pending(), 4);
}

#[test]
fn clock_moving_backward_counts_as_no_elapsed_time() {
    let mut c = Coordinator::new(token(), false);
    c.on_connected(1, 10, 5000);
    c.on_connected(2, 20, 5000);
    c.on_message(1, 10, b"a\n", 5000);
    // The clock appears to run backward: zero elapsed time, so the
    // message is early and costs a strike rather than crashing.
    let acts = c.on_message(1, 10, b"b\n", 4000);
    assert!(acts.is_empty());
    assert_eq!(c.session_strikes(1, 10), Some(1));
}
