use nio_crypto::devices::{DeviceKeys, TrustState};
use nio_crypto::engine::{Engine, Settings};
use nio_crypto::error::EngineError;
use nio_crypto::ingest::{ClaimedKey, Response};
use nio_crypto::requests::{DeviceRef, Payload, RequestKind};
use nio_crypto::sync::{PreKeyMessage, RoomKey, SyncChanges};

fn alice() -> Engine {
    let settings = Settings { low_water: 2, rotation_limit: 3 };
    match Engine::new("@alice:example.org", "DEVICE1", settings) {
        Ok(e) => e,
        Err(_) => panic!("a well-formed user id was rejected"),
    }
}

fn text(s: &str) -> String {
    s.to_string()
}

fn bob_x() -> DeviceKeys {
    DeviceKeys {
        user_id: text("@bob:example.org"),
        device_id: text("X"),
        curve25519: text("curve-x"),
        ed25519: text("ed-x"),
    }
}

fn names(list: &Vec<DeviceRef>) -> Vec<(String, String)> {
    list.iter().map(|d| (d.user_id.clone(), d.device_id.clone())).collect()
}

fn ids(e: &Engine) -> Vec<u64> {
    e.outgoing_requests().iter().map(|r| r.request_id).collect()
}

/// Brings the engine to know bob's device X, with a session where asked.
fn with_bob(establish: bool) -> Engine {
    let mut e = alice();
    e.update_tracked_users(&vec![text("@bob:example.org")]);
    e.receive_keys_query_response(&vec![text("@bob:example.org")], &vec![bob_x()]);
    if establish {
        let (id, _) = e.get_missing_sessions(&vec![text("@bob:example.org")]).unwrap();
        let claims = vec![ClaimedKey {
            user_id: text("@bob:example.org"),
            device_id: text("X"),
            one_time_key: Some(text("otk")),
        }];
        let r = e.mark_request_as_sent(
            id,
            RequestKind::ClaimKeys,
            Some(Response::KeysClaim { claims, now: 7 }),
        );
        assert_eq!(r, Ok(vec![true]));
    }
    e
}

#[test]
fn malformed_user_id_is_rejected_at_construction() {
    let settings = Settings { low_water: 2, rotation_limit: 3 };
    assert!(matches!(
        Engine::new("alice", "DEVICE1", settings),
        Err(EngineError::InvalidIdentifier)
    ));
    let e = alice();
    assert_eq!(e.user_id, "@alice:example.org");
    assert_eq!(e.device_id, "DEVICE1");
    assert!(e.outgoing_requests().is_empty());
    assert!(e.check_capacity());
}

#[test]
fn upload_then_acknowledge_settles_the_supply() {
    let mut e = alice();
    assert!(e.should_upload_keys());
    let id = e.keys_for_upload(&vec![text("k0"), text("k1"), text("k2")]).unwrap();
    assert_eq!(id, 0);
    {
        let out = e.outgoing_requests();
        assert_eq!(out.len(), 1);
        assert_eq!(out[0].request_id, 0);
        assert!(matches!(
            out[0].payload,
            Payload::UploadKeys { with_identity: true, first_key: 0, count: 3 }
        ));
    }
    // No second batch while the first awaits its confirmation.
    assert_eq!(e.keys_for_upload(&vec![text("k3")]), None);
    assert_eq!(ids(&e), vec![0]);
    assert!(e.should_upload_keys());
    let r = e.mark_request_as_sent(0, RequestKind::UploadKeys, Some(Response::KeysUpload));
    assert_eq!(r, Ok(vec![]));
    assert!(!e.should_upload_keys());
    assert!(e.outgoing_requests().is_empty());
    // The next upload carries no identity keys and goes on numbering.
    let id = e.keys_for_upload(&vec![text("k3")]).unwrap();
    assert_eq!(id, 1);
    assert!(matches!(
        e.outgoing_requests()[0].payload,
        Payload::UploadKeys { with_identity: false, first_key: 3, count: 1 }
    ));
}

#[test]
fn supply_below_low_water_asks_for_upload() {
    let mut e = with_bob(false);
    let id = e.keys_for_upload(&vec![text("k0"), text("k1")]).unwrap();
    assert_eq!(e.mark_request_as_sent(id, RequestKind::UploadKeys, Some(Response::KeysUpload)), Ok(vec![]));
    assert!(!e.should_upload_keys());
    let peer = DeviceRef { user_id: text("@bob:example.org"), device_id: text("X") };
    assert_eq!(e.receive_pre_key_message(peer, 0, 5), Ok(true));
    // One free key is left, below the low-water mark of two.
    assert!(e.should_upload_keys());
}

#[test]
fn tracked_user_is_queried_until_answered() {
    let mut e = alice();
    assert!(!e.should_query_keys());
    e.update_tracked_users(&vec![text("@bob:example.org"), text("bogus"), text("@carol:example.org")]);
    assert!(e.should_query_keys());
    assert_eq!(e.users_for_key_query(), vec![text("@bob:example.org"), text("@carol:example.org")]);
    assert_eq!(e.users_for_key_query(), e.users_for_key_query());
    // Tracking again marks nobody anew.
    e.update_tracked_users(&vec![text("@bob:example.org")]);
    assert_eq!(e.users_for_key_query().len(), 2);
    e.receive_keys_query_response(&vec![text("@bob:example.org")], &vec![bob_x()]);
    // carol was not in the answer and goes on waiting.
    assert_eq!(e.users_for_key_query(), vec![text("@carol:example.org")]);
    let (id, missing) = e.get_missing_sessions(&vec![text("@bob:example.org")]).unwrap();
    assert_eq!(names(&missing), vec![(text("@bob:example.org"), text("X"))]);
    let out = e.outgoing_requests();
    assert_eq!(out.len(), 1);
    assert_eq!(out[0].request_id, id);
    match &out[0].payload {
        Payload::ClaimKeys { targets } => {
            assert_eq!(names(targets), vec![(text("@bob:example.org"), text("X"))])
        }
        _ => panic!("a key claim was expected"),
    }
}

#[test]
fn missing_sessions_of_unknown_or_malformed_users_are_none() {
    let mut e = with_bob(false);
    assert!(e.get_missing_sessions(&vec![text("@carol:example.org")]).is_none());
    assert!(e.get_missing_sessions(&vec![text("bob")]).is_none());
    assert!(e.get_missing_sessions(&Vec::new()).is_none());
    assert!(e.outgoing_requests().is_empty());
    let mut e = with_bob(true);
    assert!(e.get_missing_sessions(&vec![text("@bob:example.org")]).is_none());
}

#[test]
fn device_list_change_marks_watched_users_only() {
    let mut e = with_bob(false);
    assert!(!e.should_query_keys());
    let changes = SyncChanges {
        changed_users: Some(vec![text("@bob:example.org"), text("@mallory:example.org")]),
        pre_keys: None,
        room_keys: None,
        changed_rooms: None,
        now: 1,
    };
    e.receive_sync_response(&changes);
    assert_eq!(e.users_for_key_query(), vec![text("@bob:example.org")]);
}

#[test]
fn share_after_claim_addresses_the_device() {
    let mut e = with_bob(true);
    let room = text("!room:example.org");
    assert!(e.should_share_group_session(&room));
    let (id, targets) = e.share_group_session(&room, &vec![text("@bob:example.org")], 20).unwrap();
    assert_eq!(names(&targets), vec![(text("@bob:example.org"), text("X"))]);
    assert!(!e.should_share_group_session(&room));
    match &e.outgoing_requests().last().unwrap().payload {
        Payload::ToDevice { room_id, session_id, targets } => {
            assert_eq!(room_id, "!room:example.org");
            assert_eq!(*session_id, 0);
            assert_eq!(names(targets), vec![(text("@bob:example.org"), text("X"))]);
        }
        _ => panic!("a to-device request was expected"),
    }
    assert_eq!(e.mark_request_as_sent(id, RequestKind::ToDevice, Some(Response::ToDevice)), Ok(vec![]));
    // The session carries three messages, then it is worn out.
    for index in 0..3u64 {
        assert!(!e.should_share_group_session(&room));
        let order = e.encrypt(&room, format!("m{}", index)).unwrap();
        assert_eq!(order.room_id, "!room:example.org");
        assert_eq!(order.session_id, 0);
        assert_eq!(order.message_index, index);
        assert_eq!(order.content, format!("m{}", index));
    }
    assert!(e.should_share_group_session(&room));
    assert!(matches!(e.encrypt(&room, text("m3")), Err(EngineError::MissingSession)));
    // The rotation gives the room a higher session number.
    let _ = e.share_group_session(&room, &vec![text("@bob:example.org")], 20).unwrap();
    let order = e.encrypt(&room, text("m3")).unwrap();
    assert_eq!(order.session_id, 1);
    assert_eq!(order.message_index, 0);
}

#[test]
fn membership_change_calls_for_a_new_share() {
    let mut e = with_bob(true);
    let room = text("!room:example.org");
    let other = text("!other:example.org");
    let _ = e.share_group_session(&room, &vec![text("@bob:example.org")], 20).unwrap();
    let _ = e.share_group_session(&other, &vec![text("@bob:example.org")], 20).unwrap();
    assert!(!e.should_share_group_session(&room));
    let changes = SyncChanges {
        changed_users: None,
        pre_keys: None,
        room_keys: None,
        changed_rooms: Some(vec![room.clone(), text("!nowhere:example.org")]),
        now: 1,
    };
    e.receive_sync_response(&changes);
    assert!(e.should_share_group_session(&room));
    assert!(!e.should_share_group_session(&other));
    assert!(matches!(e.encrypt(&room, text("m")), Err(EngineError::MissingSession)));
    let _ = e.share_group_session(&room, &vec![text("@bob:example.org")], 20).unwrap();
    assert_eq!(e.encrypt(&room, text("m")).unwrap().session_id, 2);
    assert_eq!(e.encrypt(&other, text("m")).unwrap().session_id, 1);
}

#[test]
fn sharing_again_keeps_a_session_in_use() {
    let mut e = with_bob(true);
    let room = text("!room:example.org");
    let _ = e.share_group_session(&room, &vec![text("@bob:example.org")], 20).unwrap();
    let _ = e.encrypt(&room, text("m0")).unwrap();
    let _ = e.share_group_session(&room, &vec![text("@bob:example.org")], 20).unwrap();
    let order = e.encrypt(&room, text("m1")).unwrap();
    assert_eq!(order.session_id, 0);
    assert_eq!(order.message_index, 1);
}

#[test]
fn blacklisted_and_sessionless_devices_get_no_room_key() {
    let mut e = with_bob(true);
    let y = DeviceKeys {
        user_id: text("@bob:example.org"),
        device_id: text("Y"),
        curve25519: text("curve-y"),
        ed25519: text("ed-y"),
    };
    e.receive_keys_query_response(&vec![text("@bob:example.org")], &vec![bob_x(), y]);
    let room = text("!room:example.org");
    let (_, targets) = e.share_group_session(&room, &vec![text("@bob:example.org")], 20).unwrap();
    // Y has no session yet.
    assert_eq!(names(&targets), vec![(text("@bob:example.org"), text("X"))]);
    assert!(!e.should_share_group_session(&room));
    assert!(!e.set_device_trust(&text("@bob:example.org"), &text("Z"), TrustState::Blacklisted));
    assert!(e.set_device_trust(&text("@bob:example.org"), &text("X"), TrustState::Verified));
    assert!(!e.should_share_group_session(&room));
    // Blacklisting a device that has the key puts the session out of date.
    assert!(e.set_device_trust(&text("@bob:example.org"), &text("X"), TrustState::Blacklisted));
    assert!(e.should_share_group_session(&room));
    let (_, targets) = e.share_group_session(&room, &vec![text("@bob:example.org")], 21).unwrap();
    assert!(targets.is_empty());
    assert_eq!(e.encrypt(&room, text("m")).unwrap().session_id, 1);
}

#[test]
fn malformed_room_id_is_rejected() {
    let mut e = with_bob(true);
    let bad = text("room:example.org");
    assert!(matches!(
        e.share_group_session(&bad, &vec![text("@bob:example.org")], 20),
        Err(EngineError::InvalidIdentifier)
    ));
    assert!(matches!(e.encrypt(&bad, text("m")), Err(EngineError::InvalidIdentifier)));
    assert!(e.outgoing_requests().is_empty());
    let room = text("!room:example.org");
    assert!(matches!(e.encrypt(&room, text("m")), Err(EngineError::MissingSession)));
}

#[test]
fn outgoing_requests_is_idempotent() {
    let mut e = with_bob(false);
    let _ = e.keys_for_upload(&vec![text("k0")]);
    let _ = e.get_missing_sessions(&vec![text("@bob:example.org")]);
    let first = ids(&e);
    let second = ids(&e);
    assert_eq!(first, vec![0, 1]);
    assert_eq!(first, second);
}

#[test]
fn acknowledgment_is_accepted_once() {
    let mut e = alice();
    let id = e.keys_for_upload(&vec![text("k0"), text("k1")]).unwrap();
    assert_eq!(e.mark_request_as_sent(id, RequestKind::UploadKeys, Some(Response::KeysUpload)), Ok(vec![]));
    assert_eq!(
        e.mark_request_as_sent(id, RequestKind::UploadKeys, Some(Response::KeysUpload)),
        Err(EngineError::UnknownRequest)
    );
    // The identifier is not given out again.
    let next = e.keys_for_upload(&vec![text("k2")]).unwrap();
    assert!(next > id);
    assert_eq!(
        e.mark_request_as_sent(id, RequestKind::UploadKeys, Some(Response::KeysUpload)),
        Err(EngineError::UnknownRequest)
    );
    assert_eq!(ids(&e), vec![next]);
}

#[test]
fn bad_acknowledgments_change_nothing() {
    let mut e = alice();
    let id = e.keys_for_upload(&vec![text("k0"), text("k1")]).unwrap();
    assert_eq!(
        e.mark_request_as_sent(id + 1, RequestKind::UploadKeys, Some(Response::KeysUpload)),
        Err(EngineError::UnknownRequest)
    );
    assert_eq!(
        e.mark_request_as_sent(id + 1, RequestKind::UploadKeys, None),
        Err(EngineError::UnknownRequest)
    );
    assert_eq!(
        e.mark_request_as_sent(id, RequestKind::QueryKeys, Some(Response::KeysUpload)),
        Err(EngineError::MalformedResponse)
    );
    assert_eq!(
        e.mark_request_as_sent(id, RequestKind::UploadKeys, Some(Response::ToDevice)),
        Err(EngineError::MalformedResponse)
    );
    assert_eq!(
        e.mark_request_as_sent(id, RequestKind::UploadKeys, None),
        Err(EngineError::MalformedResponse)
    );
    assert_eq!(
        e.mark_request_as_sent(
            id,
            RequestKind::QueryKeys,
            Some(Response::KeysQuery { users: vec![], devices: vec![bob_x()] })
        ),
        Err(EngineError::MalformedResponse)
    );
    assert_eq!(ids(&e), vec![id]);
    assert!(e.should_upload_keys());
    assert!(e.devices.find(&text("@bob:example.org"), &text("X")).is_none());
    assert_eq!(e.mark_request_as_sent(id, RequestKind::UploadKeys, Some(Response::KeysUpload)), Ok(vec![]));
}

#[test]
fn one_failed_claim_does_not_hold_up_the_others() {
    let mut e = with_bob(false);
    let y = DeviceKeys {
        user_id: text("@bob:example.org"),
        device_id: text("Y"),
        curve25519: text("curve-y"),
        ed25519: text("ed-y"),
    };
    e.receive_keys_query_response(&vec![], &vec![y]);
    let claims = vec![
        ClaimedKey { user_id: text("@bob:example.org"), device_id: text("X"), one_time_key: None },
        ClaimedKey { user_id: text("@bob:example.org"), device_id: text("Q"), one_time_key: Some(text("q")) },
        ClaimedKey { user_id: text("@bob:example.org"), device_id: text("Y"), one_time_key: Some(text("y")) },
        ClaimedKey { user_id: text("@bob:example.org"), device_id: text("Y"), one_time_key: Some(text("late")) },
    ];
    let made = e.receive_keys_claim_response(&claims, 9);
    assert_eq!(made, vec![false, false, true, false]);
    let (_, missing) = e.get_missing_sessions(&vec![text("@bob:example.org")]).unwrap();
    assert_eq!(names(&missing), vec![(text("@bob:example.org"), text("X"))]);
}

#[test]
fn a_one_time_key_serves_one_peer() {
    let mut e = with_bob(false);
    let y = DeviceKeys {
        user_id: text("@bob:example.org"),
        device_id: text("Y"),
        curve25519: text("curve-y"),
        ed25519: text("ed-y"),
    };
    e.receive_keys_query_response(&vec![], &vec![y]);
    let bob_x = || DeviceRef { user_id: text("@bob:example.org"), device_id: text("X") };
    let bob_y = || DeviceRef { user_id: text("@bob:example.org"), device_id: text("Y") };
    let stranger = DeviceRef { user_id: text("@eve:example.org"), device_id: text("E") };
    // Keys that are not published cannot be claimed.
    let id = e.keys_for_upload(&vec![text("k0"), text("k1")]).unwrap();
    assert_eq!(e.receive_pre_key_message(bob_x(), 0, 1), Err(EngineError::CryptographicFailure));
    assert_eq!(e.mark_request_as_sent(id, RequestKind::UploadKeys, Some(Response::KeysUpload)), Ok(vec![]));
    assert_eq!(e.receive_pre_key_message(stranger, 0, 1), Err(EngineError::CryptographicFailure));
    assert_eq!(e.receive_pre_key_message(bob_x(), 5, 1), Err(EngineError::CryptographicFailure));
    assert_eq!(e.receive_pre_key_message(bob_x(), 0, 1), Ok(true));
    // The key is taken: another device cannot use it, and gets no session.
    assert_eq!(e.receive_pre_key_message(bob_y(), 0, 2), Err(EngineError::CryptographicFailure));
    // A device with a session keeps it, and the key stays free.
    assert_eq!(e.receive_pre_key_message(bob_x(), 1, 3), Ok(false));
    assert_eq!(e.receive_pre_key_message(bob_y(), 1, 4), Ok(true));
    assert!(e.get_missing_sessions(&vec![text("@bob:example.org")]).is_none());
}

#[test]
fn sync_sections_are_applied_independently() {
    let mut e = with_bob(false);
    let id = e.keys_for_upload(&vec![text("k0"), text("k1")]).unwrap();
    assert_eq!(e.mark_request_as_sent(id, RequestKind::UploadKeys, Some(Response::KeysUpload)), Ok(vec![]));
    let room = text("!room:example.org");
    let changes = SyncChanges {
        changed_users: None,
        pre_keys: Some(vec![PreKeyMessage {
            sender: DeviceRef { user_id: text("@bob:example.org"), device_id: text("X") },
            key_id: 1,
        }]),
        room_keys: Some(vec![
            RoomKey { room_id: room.clone(), session_id: 4, sender_key: text("bob-curve") },
            RoomKey { room_id: room.clone(), session_id: 4, sender_key: text("other") },
        ]),
        changed_rooms: None,
        now: 11,
    };
    e.receive_sync_response(&changes);
    assert!(!e.should_query_keys());
    assert!(e.get_missing_sessions(&vec![text("@bob:example.org")]).is_none());
    assert_eq!(e.groups.find_inbound(&room, 4), Some(0));
    assert_eq!(e.groups.find_inbound(&room, 5), None);
    assert_eq!(e.groups.open(&room, 4, Some(text("hello"))), Ok(text("hello")));
    assert_eq!(e.groups.open(&room, 4, None), Err(EngineError::CryptographicFailure));
    assert_eq!(e.groups.open(&room, 5, Some(text("hello"))), Err(EngineError::MissingSession));
    assert_eq!(
        e.groups.open(&text("!other:example.org"), 4, None),
        Err(EngineError::MissingSession)
    );
}

#[test]
fn a_new_device_puts_shared_sessions_out_of_date() {
    let mut e = with_bob(true);
    let room = text("!room:example.org");
    let empty = text("!empty:example.org");
    let _ = e.share_group_session(&room, &vec![text("@bob:example.org")], 20).unwrap();
    let _ = e.share_group_session(&empty, &vec![], 20).unwrap();
    // A report of the known device changes nothing.
    e.receive_keys_query_response(&vec![text("@bob:example.org")], &vec![bob_x()]);
    assert!(!e.should_share_group_session(&room));
    let y = DeviceKeys {
        user_id: text("@bob:example.org"),
        device_id: text("Y"),
        curve25519: text("curve-y"),
        ed25519: text("ed-y"),
    };
    e.receive_keys_query_response(&vec![text("@bob:example.org")], &vec![bob_x(), y]);
    assert!(e.should_share_group_session(&room));
    assert!(!e.should_share_group_session(&empty));
}

#[test]
fn unreported_devices_turn_stale_and_come_back() {
    let mut e = with_bob(true);
    let y = DeviceKeys {
        user_id: text("@bob:example.org"),
        device_id: text("Y"),
        curve25519: text("curve-y"),
        ed25519: text("ed-y"),
    };
    // The answer covers bob and leaves X out.
    e.receive_keys_query_response(&vec![text("@bob:example.org")], &vec![y]);
    let room = text("!room:example.org");
    let (_, targets) = e.share_group_session(&room, &vec![text("@bob:example.org")], 20).unwrap();
    assert!(targets.is_empty());
    let (_, missing) = e.get_missing_sessions(&vec![text("@bob:example.org")]).unwrap();
    assert_eq!(names(&missing), vec![(text("@bob:example.org"), text("Y"))]);
    // The record of X was kept, with its session.
    let at = e.devices.find(&text("@bob:example.org"), &text("X")).unwrap();
    assert_eq!(at, 0);
    assert!(e.devices.has_session(at));
    // An answer that does not cover bob leaves his devices as they are.
    e.receive_keys_query_response(&vec![text("@carol:example.org")], &vec![]);
    let (_, missing) = e.get_missing_sessions(&vec![text("@bob:example.org")]).unwrap();
    assert_eq!(names(&missing), vec![(text("@bob:example.org"), text("Y"))]);
    // Reported again, X is a target again.
    e.receive_keys_query_response(&vec![text("@bob:example.org")], &vec![bob_x()]);
    let (_, targets) = e.share_group_session(&room, &vec![text("@bob:example.org")], 21).unwrap();
    assert_eq!(names(&targets), vec![(text("@bob:example.org"), text("X"))]);
    assert!(e.get_missing_sessions(&vec![text("@bob:example.org")]).is_none());
}

#[test]
fn key_query_is_staged_and_settled_by_its_answer() {
    let mut e = alice();
    assert_eq!(e.request_key_query(), None);
    e.update_tracked_users(&vec![text("@bob:example.org"), text("@carol:example.org")]);
    let id = e.request_key_query().unwrap();
    match &e.outgoing_requests()[0].payload {
        Payload::QueryKeys { users } => {
            assert_eq!(users, &vec![text("@bob:example.org"), text("@carol:example.org")])
        }
        _ => panic!("a key query was expected"),
    }
    let answer = Response::KeysQuery { users: vec![text("@bob:example.org")], devices: vec![bob_x()] };
    assert_eq!(e.mark_request_as_sent(id, RequestKind::QueryKeys, Some(answer)), Ok(vec![]));
    assert_eq!(e.users_for_key_query(), vec![text("@carol:example.org")]);
    assert_eq!(e.devices.find(&text("@bob:example.org"), &text("X")), Some(0));
    assert!(e.outgoing_requests().is_empty());
}

#[test]
fn decrypt_needs_the_room_key_first() {
    let mut e = alice();
    let room = text("!room:example.org");
    assert_eq!(e.decrypt(&room, 3, Some(text("hi"))), Err(EngineError::MissingSession));
    let changes = SyncChanges {
        changed_users: None,
        pre_keys: None,
        room_keys: Some(vec![RoomKey { room_id: room.clone(), session_id: 3, sender_key: text("k") }]),
        changed_rooms: None,
        now: 2,
    };
    e.receive_sync_response(&changes);
    assert_eq!(e.decrypt(&room, 3, Some(text("hi"))), Ok(text("hi")));
    assert_eq!(e.decrypt(&room, 3, None), Err(EngineError::CryptographicFailure));
    assert_eq!(e.decrypt(&room, 2, Some(text("hi"))), Err(EngineError::MissingSession));
}

#[test]
fn a_dropped_upload_frees_the_way_for_a_new_batch() {
    let mut e = alice();
    let first = e.keys_for_upload(&vec![text("k0"), text("k1")]).unwrap();
    assert_eq!(e.drop_request(first, RequestKind::QueryKeys), Err(EngineError::MalformedResponse));
    assert_eq!(e.drop_request(first + 1, RequestKind::UploadKeys), Err(EngineError::UnknownRequest));
    assert_eq!(e.keys_for_upload(&vec![text("k2")]), None);
    assert_eq!(e.drop_request(first, RequestKind::UploadKeys), Ok(()));
    assert!(e.outgoing_requests().is_empty());
    assert!(e.should_upload_keys());
    // The retry gets a fresh identifier, and the stale one stays unknown.
    let second = e.keys_for_upload(&vec![text("k2"), text("k3"), text("k4")]).unwrap();
    assert_eq!(second, first + 1);
    assert!(matches!(
        e.outgoing_requests()[0].payload,
        Payload::UploadKeys { with_identity: true, first_key: 0, count: 3 }
    ));
    assert_eq!(
        e.mark_request_as_sent(first, RequestKind::UploadKeys, Some(Response::KeysUpload)),
        Err(EngineError::UnknownRequest)
    );
    assert_eq!(e.mark_request_as_sent(second, RequestKind::UploadKeys, Some(Response::KeysUpload)), Ok(vec![]));
    assert!(!e.should_upload_keys());
}

#[test]
fn an_explicit_rotation_replaces_the_session() {
    let mut e = with_bob(true);
    let room = text("!room:example.org");
    e.invalidate_group_session(&room);
    assert!(e.should_share_group_session(&room));
    let _ = e.share_group_session(&room, &vec![text("@bob:example.org")], 20).unwrap();
    assert_eq!(e.encrypt(&room, text("a")).unwrap().session_id, 0);
    e.invalidate_group_session(&room);
    assert!(e.should_share_group_session(&room));
    assert!(matches!(e.encrypt(&room, text("b")), Err(EngineError::MissingSession)));
    let _ = e.share_group_session(&room, &vec![text("@bob:example.org")], 21).unwrap();
    let order = e.encrypt(&room, text("b")).unwrap();
    assert_eq!(order.session_id, 1);
    assert_eq!(order.message_index, 0);
}

#[test]
fn late_claim_for_an_established_session_is_ignored() {
    let mut e = with_bob(true);
    let at = e.devices.find(&text("@bob:example.org"), &text("X")).unwrap();
    assert_eq!(e.devices.session_of(at).map(|s| s.created_at), Some(7));
    let late = vec![ClaimedKey {
        user_id: text("@bob:example.org"),
        device_id: text("X"),
        one_time_key: Some(text("another")),
    }];
    assert_eq!(e.receive_keys_claim_response(&late, 99), vec![false]);
    // The first session stays.
    assert_eq!(e.devices.session_of(at).map(|s| s.created_at), Some(7));
    assert!(!e.devices.establish(&text("@bob:example.org"), &text("X"), 100));
    assert!(!e.devices.establish(&text("@bob:example.org"), &text("nobody"), 100));
    assert_eq!(e.devices.session_of(at).map(|s| s.created_at), Some(7));
}

#[test]
fn an_acknowledged_claim_reports_each_device() {
    let mut e = with_bob(false);
    let (id, _) = e.get_missing_sessions(&vec![text("@bob:example.org")]).unwrap();
    let claims = vec![
        ClaimedKey { user_id: text("@bob:example.org"), device_id: text("Q"), one_time_key: Some(text("q")) },
        ClaimedKey { user_id: text("@bob:example.org"), device_id: text("X"), one_time_key: None },
        ClaimedKey { user_id: text("@bob:example.org"), device_id: text("X"), one_time_key: Some(text("x")) },
    ];
    let r = e.mark_request_as_sent(
        id,
        RequestKind::ClaimKeys,
        Some(Response::KeysClaim { claims, now: 4 }),
    );
    assert_eq!(r, Ok(vec![false, false, true]));
    assert!(e.outgoing_requests().is_empty());
}
