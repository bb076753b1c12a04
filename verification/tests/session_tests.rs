use group_session::directory::{publish_package, Directory};
use group_session::errors::{GroupEvent, SessionError};
use group_session::session::SessionManager;

#[test]
fn create_user_twice_fails_with_user_exists() {
    let mut session = SessionManager::new();
    assert!(!session.is_authenticated());
    assert_eq!(session.create_user("alice"), Ok(()));
    assert!(session.is_authenticated());
    assert_eq!(session.create_user("alice"), Err(SessionError::UserExists));
    assert_eq!(session.create_user("bob"), Err(SessionError::UserExists));
    assert!(session.is_authenticated());
}

#[test]
fn operations_before_create_user_fail_with_no_user() {
    let mut session = SessionManager::new();
    assert_eq!(
        session.create_message(&vec![1, 2, 3], b"hello"),
        Err(SessionError::NoUser)
    );
    assert_eq!(session.create_group(), Err(SessionError::NoUser));
    assert_eq!(session.publish_key_package(), Err(SessionError::NoUser));
    assert_eq!(session.get_identity(), Err(SessionError::NoUser));
    assert_eq!(
        session.invite(&vec![1, 2, 3], &vec![4, 5]),
        Err(SessionError::NoUser)
    );
}

#[test]
fn invite_on_unknown_group_fails_with_group_not_found() {
    let mut session = SessionManager::new();
    session.create_user("alice").unwrap();
    assert_eq!(
        session.invite(&vec![9, 9, 9], &vec![1, 2, 3]),
        Err(SessionError::GroupNotFound)
    );
}

#[test]
fn create_message_on_unknown_group_fails_with_group_not_found() {
    let mut session = SessionManager::new();
    session.create_user("alice").unwrap();
    assert_eq!(
        session.create_message(&vec![9, 9, 9], b"hi"),
        Err(SessionError::GroupNotFound)
    );
}

#[test]
fn process_incoming_rejects_garbage_without_panicking() {
    let mut session = SessionManager::new();
    assert_eq!(
        session.process_incoming(&[0xde, 0xad, 0xbe, 0xef]),
        Err(SessionError::DeserializeFailed)
    );
    assert_eq!(session.process_incoming(&[]), Err(SessionError::DeserializeFailed));
    assert_eq!(session.process_incoming(&[0x00]), Err(SessionError::DeserializeFailed));
    // A truncated but plausible prefix is rejected the same way.
    let mut truncated = vec![0x00, 0x01, 0x03];
    truncated.extend(std::iter::repeat(0u8).take(5));
    assert_eq!(
        session.process_incoming(&truncated),
        Err(SessionError::DeserializeFailed)
    );
}

#[test]
fn create_group_registers_and_lists_the_new_id() {
    let mut session = SessionManager::new();
    session.create_user("alice").unwrap();
    let group_id = session.create_group().expect("group creation");
    let groups = session.list_groups();
    assert_eq!(groups.len(), 1);
    assert_eq!(groups[0], group_id);
    let second = session.create_group().expect("second group");
    assert_ne!(group_id, second);
    assert_eq!(session.list_groups().len(), 2);
}

#[test]
fn knows_group_tracks_created_groups() {
    let mut session = SessionManager::new();
    assert!(!session.knows_group(&vec![1, 2, 3]));
    session.create_user("alice").unwrap();
    let group_id = session.create_group().unwrap();
    assert!(session.knows_group(&group_id));
    assert!(!session.knows_group(&vec![1, 2, 3]));
}

#[test]
fn get_identity_encodes_the_name_bytes() {
    let mut session = SessionManager::new();
    session.create_user("alice").unwrap();
    // URL-safe unpadded base64 of "alice".
    assert_eq!(session.get_identity().unwrap(), "YWxpY2U");
}

#[test]
fn invite_rejects_a_garbage_key_package() {
    let mut session = SessionManager::new();
    session.create_user("alice").unwrap();
    let group_id = session.create_group().unwrap();
    assert_eq!(
        session.invite(&group_id, &vec![1, 2, 3, 4]),
        Err(SessionError::PackageInvalid)
    );
    // The group survives the failed invite.
    assert_eq!(session.list_groups(), vec![group_id]);
}

#[test]
fn published_key_package_carries_the_identity() {
    let mut bob = SessionManager::new();
    bob.create_user("bob").unwrap();
    let package = bob.publish_key_package().expect("key package bytes");

    let mut dir = Directory::new();
    let identity = publish_package(&mut dir, package.clone()).expect("publish");
    assert_eq!(identity, b"bob".to_vec());
    assert_eq!(dir.get(&identity).unwrap(), package);
}

/// Runs the full join flow: alice creates a group and invites bob through
/// the directory; bob joins from the welcome. Returns both sessions and the
/// group id.
fn joined_pair() -> (SessionManager, SessionManager, Vec<u8>) {
    let mut alice = SessionManager::new();
    alice.create_user("alice").unwrap();
    let group_id = alice.create_group().unwrap();

    let mut bob = SessionManager::new();
    bob.create_user("bob").unwrap();
    let package = bob.publish_key_package().unwrap();

    let mut dir = Directory::new();
    let identity = publish_package(&mut dir, package).unwrap();
    let fetched = dir.get(&identity).unwrap();

    let welcome = alice.invite(&group_id, &fetched).expect("invite");
    let event = bob.process_incoming(&welcome).expect("join");
    match event {
        GroupEvent::Joined { group_id: joined_id } => {
            assert_eq!(joined_id, group_id);
        }
        other => panic!("expected a join event, got {:?}", other),
    }
    (alice, bob, group_id)
}

#[test]
fn join_flow_yields_the_same_group_id_on_both_peers() {
    let (alice, bob, group_id) = joined_pair();
    assert_eq!(alice.list_groups(), vec![group_id.clone()]);
    assert_eq!(bob.list_groups(), vec![group_id]);
}

#[test]
fn invite_leaves_no_pending_commit_create_message_works_at_once() {
    let (mut alice, _bob, group_id) = joined_pair();
    // The merge happened inside invite: the group accepts new messages
    // immediately.
    let message = alice.create_message(&group_id, b"right after invite");
    assert!(message.is_ok(), "create_message after invite failed: {:?}", message);
}

#[test]
fn message_round_trip_returns_byte_identical_plaintext() {
    let (mut alice, mut bob, group_id) = joined_pair();
    let plaintext: &[u8] = b"hello group \xf0\x9f\x8e\x89";
    let envelope = alice.create_message(&group_id, plaintext).unwrap();
    match bob.process_incoming(&envelope).unwrap() {
        GroupEvent::MessageReceived { group_id: from_group, plaintext: received } => {
            assert_eq!(from_group, group_id);
            assert_eq!(received, plaintext.to_vec());
        }
        other => panic!("expected a message event, got {:?}", other),
    }
}

#[test]
fn message_round_trip_works_in_both_directions() {
    let (mut alice, mut bob, group_id) = joined_pair();
    let to_bob = alice.create_message(&group_id, b"from alice").unwrap();
    match bob.process_incoming(&to_bob).unwrap() {
        GroupEvent::MessageReceived { plaintext, .. } => assert_eq!(plaintext, b"from alice".to_vec()),
        other => panic!("unexpected event {:?}", other),
    }
    let to_alice = bob.create_message(&group_id, b"from bob").unwrap();
    match alice.process_incoming(&to_alice).unwrap() {
        GroupEvent::MessageReceived { plaintext, .. } => assert_eq!(plaintext, b"from bob".to_vec()),
        other => panic!("unexpected event {:?}", other),
    }
}

#[test]
fn replayed_message_fails_with_processing_failed() {
    let (mut alice, mut bob, group_id) = joined_pair();
    let envelope = alice.create_message(&group_id, b"once only").unwrap();
    assert!(matches!(
        bob.process_incoming(&envelope),
        Ok(GroupEvent::MessageReceived { .. })
    ));
    assert_eq!(
        bob.process_incoming(&envelope),
        Err(SessionError::ProcessingFailed)
    );
}

#[test]
fn message_for_an_unjoined_group_fails_with_group_not_found() {
    let (mut alice, _bob, group_id) = joined_pair();
    let envelope = alice.create_message(&group_id, b"who is there").unwrap();
    let mut carol = SessionManager::new();
    carol.create_user("carol").unwrap();
    assert_eq!(
        carol.process_incoming(&envelope),
        Err(SessionError::GroupNotFound)
    );
}

#[test]
fn welcome_for_someone_else_fails_with_join_failed() {
    let mut alice = SessionManager::new();
    alice.create_user("alice").unwrap();
    let group_id = alice.create_group().unwrap();

    let mut bob = SessionManager::new();
    bob.create_user("bob").unwrap();
    let package = bob.publish_key_package().unwrap();
    let welcome = alice.invite(&group_id, &package).unwrap();

    // Carol never built the key package the welcome is encrypted to.
    let mut carol = SessionManager::new();
    carol.create_user("carol").unwrap();
    assert_eq!(carol.process_incoming(&welcome), Err(SessionError::JoinFailed));
    assert_eq!(carol.list_groups().len(), 0);
}
