use autowhitelist::error::VerifyError;
use autowhitelist::router::WsServer;
use tokio::sync::mpsc::unbounded_channel;

fn s(x: &str) -> String {
    x.to_string()
}

#[test]
fn connect_gives_distinct_ids() {
    let mut r = WsServer::new();
    let (tx1, _rx1) = unbounded_channel();
    let (tx2, _rx2) = unbounded_channel();
    let a = r.connect(tx1);
    let b = r.connect(tx2);
    assert_ne!(a, b);
    assert_eq!(r.live_count(), 2);
    assert!(r.is_live(a));
    assert!(r.is_live(b));
}

#[test]
fn only_one_verification_per_key_succeeds() {
    let mut r = WsServer::new();
    let (tx1, _rx1) = unbounded_channel();
    let (tx2, _rx2) = unbounded_channel();
    let (tx3, _rx3) = unbounded_channel();
    let a = r.connect(tx1);
    let b = r.connect(tx2);
    let c = r.connect(tx3);
    assert_eq!(r.verify(s("k"), a, Some(s("owner"))), Ok(s("owner")));
    assert_eq!(r.verify(s("k"), b, Some(s("owner"))), Err(VerifyError::DuplicateKey));
    assert_eq!(r.verify(s("k"), c, Some(s("owner"))), Err(VerifyError::DuplicateKey));
    assert_eq!(r.bound_conn(&s("k")), Some(a));
    assert_eq!(r.key_of(b), None);
    assert_eq!(r.key_of(c), None);
}

#[test]
fn reverify_same_connection_is_idempotent() {
    let mut r = WsServer::new();
    let (tx, _rx) = unbounded_channel();
    let a = r.connect(tx);
    assert_eq!(r.verify(s("k"), a, Some(s("owner"))), Ok(s("owner")));
    assert_eq!(r.verify(s("k"), a, Some(s("owner"))), Ok(s("owner")));
    assert_eq!(r.bound_conn(&s("k")), Some(a));
    assert_eq!(r.key_of(a), Some(s("k")));
}

#[test]
fn unknown_key_is_rejected() {
    let mut r = WsServer::new();
    let (tx, _rx) = unbounded_channel();
    let a = r.connect(tx);
    assert_eq!(r.verify(s("bad-key"), a, None), Err(VerifyError::UnknownKey));
    assert_eq!(r.bound_conn(&s("bad-key")), None);
}

#[test]
fn verify_on_unregistered_connection_is_rejected() {
    let mut r = WsServer::new();
    assert_eq!(r.verify(s("k"), 7, Some(s("owner"))), Err(VerifyError::NotConnected));
    assert_eq!(r.bound_conn(&s("k")), None);
}

#[test]
fn disconnect_releases_both_directions() {
    let mut r = WsServer::new();
    let (tx, _rx) = unbounded_channel();
    let a = r.connect(tx);
    assert!(r.verify(s("k"), a, Some(s("owner"))).is_ok());
    r.disconnect(a);
    assert_eq!(r.bound_conn(&s("k")), None);
    assert_eq!(r.key_of(a), None);
    assert!(!r.is_live(a));
    assert_eq!(r.live_count(), 0);
    let (tx2, _rx2) = unbounded_channel();
    let b = r.connect(tx2);
    assert_eq!(r.verify(s("k"), b, Some(s("owner"))), Ok(s("owner")));
}

#[test]
fn disconnect_unknown_is_noop() {
    let mut r = WsServer::new();
    let (tx, _rx) = unbounded_channel();
    let a = r.connect(tx);
    assert!(r.verify(s("k"), a, Some(s("owner"))).is_ok());
    let other = a.wrapping_add(1);
    r.disconnect(other);
    r.disconnect(other);
    assert!(r.is_live(a));
    assert_eq!(r.bound_conn(&s("k")), Some(a));
    assert_eq!(r.live_count(), 1);
}

#[test]
fn unbound_deliveries_queue_in_order() {
    let mut r = WsServer::new();
    assert!(!r.add_player(s("k"), s("p1")));
    assert!(!r.add_player(s("k"), s("p2")));
    assert!(!r.add_player(s("other"), s("x")));
    assert_eq!(r.pending_for(&s("k")), vec![s("p1"), s("p2")]);
    assert_eq!(r.pending_for(&s("other")), vec![s("x")]);
}

#[test]
fn bound_delivery_goes_straight_out() {
    let mut r = WsServer::new();
    let (tx, mut rx) = unbounded_channel();
    let a = r.connect(tx);
    assert!(r.verify(s("k"), a, Some(s("owner"))).is_ok());
    assert_eq!(r.route_target(&s("k")), Some(a));
    assert!(r.add_player(s("k"), s("p")));
    assert_eq!(rx.try_recv().unwrap(), s("p"));
    assert!(r.pending_for(&s("k")).is_empty());
}

#[test]
fn delivery_to_dropped_receiver_is_queued() {
    let mut r = WsServer::new();
    let (tx, rx) = unbounded_channel();
    let a = r.connect(tx);
    assert!(r.verify(s("k"), a, Some(s("owner"))).is_ok());
    drop(rx);
    assert!(!r.add_player(s("k"), s("p")));
    assert_eq!(r.pending_for(&s("k")), vec![s("p")]);
    r.process_pending_messages();
    assert_eq!(r.pending_for(&s("k")), vec![s("p")]);
}

#[test]
fn sweep_drains_in_order_before_new_deliveries() {
    let mut r = WsServer::new();
    assert!(!r.add_player(s("k"), s("p1")));
    assert!(!r.add_player(s("k"), s("p2")));
    let (tx, mut rx) = unbounded_channel();
    let a = r.connect(tx);
    assert!(r.verify(s("k"), a, Some(s("owner"))).is_ok());
    assert_eq!(r.route_target(&s("k")), None);
    assert!(!r.add_player(s("k"), s("p3")));
    r.process_pending_messages();
    assert_eq!(rx.try_recv().unwrap(), s("p1"));
    assert_eq!(rx.try_recv().unwrap(), s("p2"));
    assert_eq!(rx.try_recv().unwrap(), s("p3"));
    assert!(rx.try_recv().is_err());
    assert!(r.pending_for(&s("k")).is_empty());
    assert_eq!(r.route_target(&s("k")), Some(a));
}

#[test]
fn sweep_leaves_unbound_queues() {
    let mut r = WsServer::new();
    assert!(!r.add_player(s("a"), s("1")));
    let (tx, mut rx) = unbounded_channel();
    let c = r.connect(tx);
    assert!(r.verify(s("b"), c, Some(s("owner"))).is_ok());
    assert!(!r.add_player(s("a"), s("2")));
    r.process_pending_messages();
    assert_eq!(r.pending_for(&s("a")), vec![s("1"), s("2")]);
    assert!(rx.try_recv().is_err());
}

#[test]
fn queued_payload_reaches_session_after_verification() {
    let mut r = WsServer::new();
    r.add_player(s("shared"), s("alice"));
    let (tx, mut rx) = unbounded_channel();
    let a = r.connect(tx);
    assert_eq!(r.verify(s("shared"), a, Some(s("Shared Server"))), Ok(s("Shared Server")));
    r.process_pending_messages();
    assert_eq!(rx.try_recv().unwrap(), s("alice"));
    assert!(r.pending_for(&s("shared")).is_empty());
}

#[test]
fn duplicate_is_found_before_any_lookup() {
    let mut r = WsServer::new();
    let (tx1, _rx1) = unbounded_channel();
    let (tx2, _rx2) = unbounded_channel();
    let a = r.connect(tx1);
    let b = r.connect(tx2);
    assert_eq!(r.duplicate_of(&s("k"), a), None);
    assert!(r.verify(s("k"), a, Some(s("owner"))).is_ok());
    assert_eq!(r.duplicate_of(&s("k"), a), None);
    assert_eq!(r.duplicate_of(&s("k"), b), Some(VerifyError::DuplicateKey));
    assert_eq!(r.duplicate_of(&s("k"), 12345), Some(VerifyError::DuplicateKey));
    assert_eq!(r.duplicate_of(&s("other"), 12345), Some(VerifyError::NotConnected));
    assert_eq!(r.verify(s("k"), b, None), Err(VerifyError::DuplicateKey));
}

#[test]
fn sweep_keeps_queue_of_dropped_receiver_in_order() {
    let mut r = WsServer::new();
    assert!(!r.add_player(s("k"), s("p1")));
    assert!(!r.add_player(s("k"), s("p2")));
    let (tx, rx) = unbounded_channel::<String>();
    let a = r.connect(tx);
    assert!(r.verify(s("k"), a, Some(s("owner"))).is_ok());
    drop(rx);
    r.process_pending_messages();
    assert_eq!(r.pending_for(&s("k")), vec![s("p1"), s("p2")]);
}
