use nio_crypto::devices::{DeviceKeys, DeviceRecord, TrustState};
use nio_crypto::engine::{Engine, Settings};
use nio_crypto::groups::OutboundGroupSession;
use nio_crypto::ledger::OneTimeKey;
use nio_crypto::persist::Snapshot;
use nio_crypto::requests::{Payload, PendingRequest};

fn text(s: &str) -> String {
    s.to_string()
}

fn busy_engine() -> Engine {
    let settings = Settings { low_water: 1, rotation_limit: 5 };
    let mut e = match Engine::new("@alice:example.org", "DEVICE1", settings) {
        Ok(e) => e,
        Err(_) => panic!("a well-formed user id was rejected"),
    };
    e.update_tracked_users(&vec![text("@bob:example.org"), text("@carol:example.org")]);
    let bob = DeviceKeys {
        user_id: text("@bob:example.org"),
        device_id: text("X"),
        curve25519: text("c"),
        ed25519: text("e"),
    };
    e.receive_keys_query_response(&vec![text("@bob:example.org")], &vec![bob]);
    let _ = e.keys_for_upload(&vec![text("k0"), text("k1")]);
    let _ = e.get_missing_sessions(&vec![text("@bob:example.org")]);
    let _ = e.share_group_session(&text("!room:example.org"), &vec![], 3);
    e
}

fn empty() -> Snapshot {
    Snapshot {
        user_id: text("@alice:example.org"),
        device_id: text("DEVICE1"),
        watched: vec![],
        waiting: vec![],
        records: vec![],
        keys: vec![],
        published: 0,
        identity_uploaded: false,
        upload_in_flight: false,
        low_water: 1,
        outbound: vec![],
        inbound: vec![],
        next_session: 0,
        rotation_limit: 5,
        pending: vec![],
        next_request_id: 0,
    }
}

fn request(id: u64) -> PendingRequest {
    PendingRequest { request_id: id, payload: Payload::QueryKeys { users: vec![] } }
}

fn record(user: &str, device: &str) -> DeviceRecord {
    DeviceRecord {
        user_id: text(user),
        device_id: text(device),
        curve25519: text("c"),
        ed25519: text("e"),
        trust: TrustState::Unset,
        stale: false,
        session: None,
    }
}

fn session(room: &str, number: u64) -> OutboundGroupSession {
    OutboundGroupSession {
        room_id: text(room),
        session_id: number,
        message_count: 0,
        created_at: 0,
        shared_with: vec![],
        rotate: false,
    }
}

#[test]
fn a_restored_engine_goes_on_where_it_stopped() {
    let e = busy_engine();
    let before: Vec<u64> = e.outgoing_requests().iter().map(|r| r.request_id).collect();
    assert_eq!(before, vec![0, 1, 2]);
    let s = e.into_snapshot();
    assert_eq!(s.waiting, vec![text("@carol:example.org")]);
    assert_eq!(s.next_request_id, 3);
    assert_eq!(s.next_session, 1);
    assert!(s.upload_in_flight);
    assert_eq!(s.published, 0);
    assert_eq!(s.keys.len(), 2);
    let mut e = Engine::restore(s).unwrap();
    let after: Vec<u64> = e.outgoing_requests().iter().map(|r| r.request_id).collect();
    assert_eq!(after, before);
    assert_eq!(e.users_for_key_query(), vec![text("@carol:example.org")]);
    assert!(!e.should_share_group_session(&text("!room:example.org")));
    assert!(e.should_share_group_session(&text("!other:example.org")));
    assert_eq!(e.keys_for_upload(&vec![text("k2")]), None);
    // Identifiers go on from where they were.
    assert_eq!(e.request_key_query(), Some(3));
}

#[test]
fn an_empty_snapshot_is_accepted() {
    assert!(Engine::restore(empty()).is_some());
}

#[test]
fn inconsistent_snapshots_are_refused() {
    let mut s = empty();
    s.waiting = vec![text("@bob:example.org")];
    assert!(Engine::restore(s).is_none());

    let mut s = empty();
    s.watched = vec![text("@bob:example.org")];
    s.waiting = vec![text("@bob:example.org"), text("@bob:example.org")];
    assert!(Engine::restore(s).is_none());

    let mut s = empty();
    s.records = vec![record("@bob:example.org", "X"), record("@bob:example.org", "X")];
    assert!(Engine::restore(s).is_none());

    let mut s = empty();
    s.records = vec![record("@bob:example.org", "X"), record("@bob:example.org", "Y")];
    assert!(Engine::restore(s).is_some());

    let mut s = empty();
    s.published = 1;
    assert!(Engine::restore(s).is_none());

    let mut s = empty();
    s.keys = vec![OneTimeKey { public_key: text("k"), claimed_by: None }];
    assert!(Engine::restore(s).is_none());

    let mut s = empty();
    s.keys = vec![OneTimeKey { public_key: text("k"), claimed_by: None }];
    s.upload_in_flight = true;
    assert!(Engine::restore(s).is_some());

    let mut s = empty();
    s.outbound = vec![session("!a:example.org", 0), session("!a:example.org", 1)];
    s.next_session = 2;
    assert!(Engine::restore(s).is_none());

    let mut s = empty();
    s.outbound = vec![session("!a:example.org", 0), session("!b:example.org", 2)];
    s.next_session = 2;
    assert!(Engine::restore(s).is_none());

    let mut s = empty();
    s.outbound = vec![session("!a:example.org", 1), session("!b:example.org", 0)];
    s.next_session = 2;
    assert!(Engine::restore(s).is_some());

    let mut s = empty();
    s.pending = vec![request(1), request(1)];
    s.next_request_id = 5;
    assert!(Engine::restore(s).is_none());

    let mut s = empty();
    s.pending = vec![request(2), request(1)];
    s.next_request_id = 5;
    assert!(Engine::restore(s).is_none());

    let mut s = empty();
    s.pending = vec![request(1), request(5)];
    s.next_request_id = 5;
    assert!(Engine::restore(s).is_none());

    let mut s = empty();
    s.pending = vec![request(1), request(4)];
    s.next_request_id = 5;
    assert!(Engine::restore(s).is_some());
}
