use nio_crypto::ids::{is_room_id, is_user_id, valid_user_ids};
use nio_crypto::requests::RequestKind;

#[test]
fn user_ids_are_checked() {
    assert!(is_user_id("@alice:example.org"));
    assert!(is_user_id("@bob:example.org:8448"));
    assert!(is_user_id("@carol:[::1]"));
    assert!(!is_user_id("alice:example.org"));
    assert!(!is_user_id("@alice"));
    assert!(!is_user_id("@alice:"));
    assert!(!is_user_id("@alice::8448"));
    assert!(!is_user_id("@alice:exa mple.org"));
    assert!(!is_user_id(""));
}

#[test]
fn room_ids_are_checked() {
    assert!(is_room_id("!room:example.org"));
    assert!(is_room_id("!opaque"));
    assert!(!is_room_id("room:example.org"));
    assert!(!is_room_id("#room:example.org"));
    assert!(!is_room_id("!ro\0om"));
    assert!(!is_room_id(""));
    let long = format!("!{}", "a".repeat(255));
    assert!(!is_room_id(&long));
    let fits = format!("!{}", "a".repeat(254));
    assert!(is_room_id(&fits));
}

#[test]
fn malformed_users_are_dropped_in_order() {
    let users = vec![
        "@bob:example.org".to_string(),
        "not a user".to_string(),
        "@alice:example.org".to_string(),
        "@bob:example.org".to_string(),
        "@:".to_string(),
    ];
    let kept = valid_user_ids(&users);
    assert_eq!(
        kept,
        vec![
            "@bob:example.org".to_string(),
            "@alice:example.org".to_string(),
            "@bob:example.org".to_string(),
        ]
    );
    assert_eq!(valid_user_ids(&Vec::new()), Vec::<String>::new());
}

#[test]
fn labels_name_kinds() {
    assert_eq!(RequestKind::from_label(&"keys_upload".to_string()), Some(RequestKind::UploadKeys));
    assert_eq!(RequestKind::from_label(&"keys_query".to_string()), Some(RequestKind::QueryKeys));
    assert_eq!(RequestKind::from_label(&"keys_claim".to_string()), Some(RequestKind::ClaimKeys));
    assert_eq!(RequestKind::from_label(&"to_device".to_string()), Some(RequestKind::ToDevice));
    assert_eq!(RequestKind::from_label(&"keys".to_string()), None);
    assert_eq!(RequestKind::from_label(&"".to_string()), None);
    for kind in [
        RequestKind::UploadKeys,
        RequestKind::QueryKeys,
        RequestKind::ClaimKeys,
        RequestKind::ToDevice,
    ] {
        assert_eq!(RequestKind::from_label(&kind.label()), Some(kind));
    }
    assert_eq!(RequestKind::UploadKeys.label(), "keys_upload");
}
