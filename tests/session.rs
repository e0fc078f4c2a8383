use autowhitelist::error::VerifyError;
use autowhitelist::frame::{client_key, ServerFrame};
use autowhitelist::router::WsServer;
use autowhitelist::session::{Action, Event, Session, SessionState, CLIENT_TIMEOUT_MS};
use tokio::sync::mpsc::unbounded_channel;

fn s(x: &str) -> String {
    x.to_string()
}

/// Runs a text frame and the registry's verdict through a session.
fn verify_through(
    r: &mut WsServer,
    sess: &mut Session,
    text: &str,
    found: Option<String>,
    now: u64,
) -> Vec<Action> {
    let acts = sess.step(Event::Text(s(text)), now);
    assert_eq!(acts.len(), 1);
    let key = match &acts[0] {
        Action::Verify(k) => k.clone(),
        other => panic!("unexpected action {:?}", other),
    };
    let verdict = r.verify(key, sess.conn(), found);
    sess.step(Event::Verdict(verdict), now)
}

#[test]
fn bad_key_gets_unknown_key_frame_and_closes() {
    let mut r = WsServer::new();
    let (tx, _rx) = unbounded_channel();
    let c = r.connect(tx);
    let mut sess = Session::new(c, 0);
    let acts = verify_through(&mut r, &mut sess, "{\"key\":\"bad-key\"}", None, 10);
    assert_eq!(acts, vec![Action::Send(ServerFrame::UnknownKey), Action::Disconnect]);
    assert_eq!(ServerFrame::UnknownKey.to_text(), s("{\"code\":-1}"));
    assert_eq!(sess.state(), SessionState::Closed);
    r.disconnect(c);
    assert!(!r.is_live(c));
}

#[test]
fn second_session_with_shared_key_is_refused() {
    let mut r = WsServer::new();
    let (tx1, _rx1) = unbounded_channel();
    let (tx2, _rx2) = unbounded_channel();
    let c1 = r.connect(tx1);
    let c2 = r.connect(tx2);
    let mut s1 = Session::new(c1, 0);
    let mut s2 = Session::new(c2, 0);
    let a1 = verify_through(&mut r, &mut s1, "{\"key\":\"shared\"}", Some(s("Shared")), 5);
    assert_eq!(a1, vec![Action::Send(ServerFrame::Verified(s("Shared")))]);
    assert_eq!(
        ServerFrame::Verified(s("Shared")).to_text(),
        s("{\"code\":1,\"server_name\":\"Shared\"}")
    );
    assert_eq!(s1.state(), SessionState::Verified);
    let a2 = verify_through(&mut r, &mut s2, "{\"key\":\"shared\"}", Some(s("Shared")), 6);
    assert_eq!(a2, vec![Action::Send(ServerFrame::DuplicateKey), Action::Disconnect]);
    assert_eq!(ServerFrame::DuplicateKey.to_text(), s("{\"code\":-2}"));
    assert_eq!(s2.state(), SessionState::Closed);
    r.disconnect(c2);
    assert_eq!(r.bound_conn(&s("shared")), Some(c1));
    assert_eq!(s1.state(), SessionState::Verified);
}

#[test]
fn silent_verified_session_times_out_once() {
    let mut r = WsServer::new();
    let (tx, _rx) = unbounded_channel();
    let c = r.connect(tx);
    let mut sess = Session::new(c, 0);
    verify_through(&mut r, &mut sess, "{\"key\":\"k\"}", Some(s("K")), 0);
    assert_eq!(sess.state(), SessionState::Verified);
    assert_eq!(sess.step(Event::Tick, 5_000), vec![Action::Ping]);
    assert_eq!(sess.step(Event::Tick, 11_000), vec![Action::Disconnect]);
    assert_eq!(sess.state(), SessionState::Closed);
    assert!(sess.step(Event::Tick, 16_000).is_empty());
    assert!(sess.step(Event::Close, 17_000).is_empty());
}

#[test]
fn heartbeat_keeps_session_alive() {
    let mut sess = Session::new(1, 0);
    sess.step(Event::Text(s("{\"key\":\"k\"}")), 1);
    sess.step(Event::Verdict(Ok(s("K"))), 1);
    assert_eq!(sess.step(Event::Ping, 8_000), vec![Action::Pong]);
    assert!(sess.step(Event::Pong, 9_000).is_empty());
    assert_eq!(sess.step(Event::Tick, 15_000), vec![Action::Ping]);
    assert_eq!(sess.step(Event::Tick, 19_000), vec![Action::Ping]);
    assert_eq!(sess.step(Event::Tick, 19_001), vec![Action::Disconnect]);
}

#[test]
fn timeout_boundary_is_exclusive() {
    let mut sess = Session::new(1, 0);
    sess.step(Event::Text(s("{\"key\":\"k\"}")), 0);
    sess.step(Event::Verdict(Ok(s("K"))), 0);
    assert_eq!(sess.step(Event::Tick, CLIENT_TIMEOUT_MS), vec![Action::Ping]);
    assert_eq!(sess.step(Event::Tick, CLIENT_TIMEOUT_MS + 1), vec![Action::Disconnect]);
}

#[test]
fn unverified_session_times_out_despite_heartbeats() {
    let mut sess = Session::new(1, 0);
    sess.step(Event::Pong, 9_000);
    assert_eq!(sess.step(Event::Tick, 10_000), vec![Action::Ping]);
    assert_eq!(sess.step(Event::Tick, 10_001), vec![Action::Disconnect]);
    assert_eq!(sess.state(), SessionState::Closed);
}

#[test]
fn routed_payload_becomes_notification() {
    let mut r = WsServer::new();
    r.add_player(s("shared"), s("alice"));
    let (tx, mut rx) = unbounded_channel();
    let c = r.connect(tx);
    let mut sess = Session::new(c, 0);
    verify_through(&mut r, &mut sess, "{\"key\":\"shared\"}", Some(s("S")), 1);
    r.process_pending_messages();
    let payload = rx.try_recv().unwrap();
    let acts = sess.step(Event::Routed(payload), 2);
    assert_eq!(acts, vec![Action::Send(ServerFrame::Notification(s("alice")))]);
    assert_eq!(
        ServerFrame::Notification(s("alice")).to_text(),
        s("{\"code\":2,\"msg\":\"alice\"}")
    );
}

#[test]
fn only_first_text_frame_is_a_verification() {
    let mut sess = Session::new(1, 0);
    assert_eq!(
        sess.step(Event::Text(s("{\"key\":\"k\"}")), 0),
        vec![Action::Verify(s("k"))]
    );
    assert!(sess.step(Event::Text(s("{\"key\":\"j\"}")), 0).is_empty());
    sess.step(Event::Verdict(Ok(s("K"))), 0);
    assert!(sess.step(Event::Text(s("{\"key\":\"j\"}")), 0).is_empty());
    assert!(sess.step(Event::Binary, 0).is_empty());
    assert_eq!(sess.server_name(), Some(&s("K")));
}

#[test]
fn malformed_first_frame_closes() {
    let mut sess = Session::new(1, 0);
    assert_eq!(
        sess.step(Event::Text(s("not json")), 0),
        vec![Action::Send(ServerFrame::Invalid), Action::Disconnect]
    );
    assert_eq!(ServerFrame::Invalid.to_text(), s("Invalid message"));
    let mut other = Session::new(2, 0);
    assert_eq!(
        other.step(Event::Text(s("{\"code\":1}")), 0),
        vec![Action::Send(ServerFrame::Invalid), Action::Disconnect]
    );
}

#[test]
fn not_connected_verdict_closes_silently() {
    let mut sess = Session::new(1, 0);
    sess.step(Event::Text(s("{\"key\":\"k\"}")), 0);
    assert_eq!(
        sess.step(Event::Verdict(Err(VerifyError::NotConnected)), 0),
        vec![Action::Disconnect]
    );
}

#[test]
fn stream_end_disconnects() {
    let mut sess = Session::new(1, 0);
    assert_eq!(sess.step(Event::StreamEnd, 0), vec![Action::Disconnect]);
    assert!(sess.step(Event::StreamEnd, 1).is_empty());
}

#[test]
fn client_key_reads_key_member() {
    assert_eq!(client_key("{\"key\":\"abc\",\"code\":0}"), Some(s("abc")));
    assert_eq!(client_key("{\"key\":5}"), None);
    assert_eq!(client_key("[1,2]"), None);
    assert_eq!(client_key(""), None);
}

#[test]
fn frames_escape_their_text() {
    assert_eq!(
        ServerFrame::Notification(s("a\"b")).to_text(),
        s("{\"code\":2,\"msg\":\"a\\\"b\"}")
    );
    assert_eq!(
        ServerFrame::Verified(s("")).to_text(),
        s("{\"code\":1,\"server_name\":\"\"}")
    );
}

#[test]
fn failed_lookup_lets_the_client_retry() {
    let mut sess = Session::new(1, 0);
    assert_eq!(
        sess.step(Event::Text(s("{\"key\":\"k\"}")), 0),
        vec![Action::Verify(s("k"))]
    );
    assert!(sess.step(Event::NoVerdict, 0).is_empty());
    assert_eq!(sess.state(), SessionState::Unverified);
    assert_eq!(
        sess.step(Event::Text(s("{\"key\":\"k\"}")), 1),
        vec![Action::Verify(s("k"))]
    );
    sess.step(Event::Verdict(Ok(s("K"))), 1);
    assert_eq!(sess.state(), SessionState::Verified);
}

#[test]
fn frames_escape_control_characters() {
    assert_eq!(
        ServerFrame::Notification(s("a\nb\u{1}\\")).to_text(),
        s("{\"code\":2,\"msg\":\"a\\nb\\u0001\\\\\"}")
    );
}
