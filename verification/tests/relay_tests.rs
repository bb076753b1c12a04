use group_session::actor::{actor_step, ActorAction, ActorEvent, ActorState};
use group_session::relay::Registry;

#[test]
fn broadcast_reaches_every_other_peer_and_never_the_sender() {
    let mut registry = Registry::new();
    assert!(registry.register(1));
    assert!(registry.register(2));
    assert!(registry.register(3));

    let frame = vec![0xca, 0xfe, 0x01];
    registry.broadcast(1, &frame);

    assert_eq!(registry.take_next(2), Some(frame.clone()));
    assert_eq!(registry.take_next(2), None);
    assert_eq!(registry.take_next(3), Some(frame.clone()));
    assert_eq!(registry.take_next(3), None);
    // Nothing was echoed back onto the sender's queue.
    assert_eq!(registry.take_next(1), None);
}

#[test]
fn dead_peer_is_pruned_and_never_blocks_the_others() {
    let mut registry = Registry::new();
    assert!(registry.register(1));
    assert!(registry.register(2));
    assert!(registry.register(3));

    // Peer 2's transport is forcibly closed.
    registry.close(2);

    let frame = vec![7u8, 8, 9];
    registry.broadcast(1, &frame);

    // The broadcast succeeded for peer 3 and the sender stayed.
    assert_eq!(registry.take_next(3), Some(frame.clone()));
    assert!(registry.contains(1));
    assert!(registry.contains(3));
    // Peer 2 is absent from the registry afterward.
    assert!(!registry.contains(2));
}

#[test]
fn forward_fails_exactly_when_the_actor_is_dead_or_absent() {
    let mut registry = Registry::new();
    assert!(!registry.forward(5, &vec![1]));
    assert!(registry.register(5));
    assert!(registry.forward(5, &vec![1, 2]));
    assert_eq!(registry.take_next(5), Some(vec![1, 2]));
    registry.close(5);
    assert!(!registry.forward(5, &vec![3]));
    assert_eq!(registry.take_next(5), None);
}

#[test]
fn register_refuses_a_taken_id() {
    let mut registry = Registry::new();
    assert!(registry.register(1));
    assert!(!registry.register(1));
    assert!(registry.contains(1));
}

#[test]
fn queued_frames_come_out_in_arrival_order() {
    let mut registry = Registry::new();
    registry.register(1);
    registry.register(2);
    registry.broadcast(1, &vec![10]);
    registry.broadcast(1, &vec![20]);
    assert_eq!(registry.take_next(2), Some(vec![10]));
    assert_eq!(registry.take_next(2), Some(vec![20]));
    assert_eq!(registry.take_next(2), None);
}

#[test]
fn running_actor_broadcasts_binary_frames() {
    let (state, action) = actor_step(
        ActorState::Running,
        ActorEvent::TransportBinary(vec![1, 2, 3]),
    );
    assert_eq!(state, ActorState::Running);
    assert_eq!(action, ActorAction::Broadcast(vec![1, 2, 3]));
}

#[test]
fn running_actor_transmits_queue_instructions() {
    let (state, action) = actor_step(
        ActorState::Running,
        ActorEvent::QueueInstruction(vec![9, 9]),
    );
    assert_eq!(state, ActorState::Running);
    assert_eq!(action, ActorAction::Transmit(vec![9, 9]));
}

#[test]
fn close_frame_stops_the_actor() {
    let (state, action) = actor_step(ActorState::Running, ActorEvent::TransportClose);
    assert_eq!(state, ActorState::Stopped);
    assert_eq!(action, ActorAction::Ignore);
}

#[test]
fn unexpected_frame_kind_is_ignored_not_fatal() {
    let (state, action) = actor_step(ActorState::Running, ActorEvent::TransportOther);
    assert_eq!(state, ActorState::Running);
    assert_eq!(action, ActorAction::Ignore);
}

#[test]
fn failed_transmit_stops_the_actor_quietly() {
    let (state, _) = actor_step(ActorState::Running, ActorEvent::TransmitResult(false));
    assert_eq!(state, ActorState::Stopped);
    let (state, _) = actor_step(ActorState::Running, ActorEvent::TransmitResult(true));
    assert_eq!(state, ActorState::Running);
}

#[test]
fn exhausted_sources_stop_the_actor() {
    let (state, _) = actor_step(ActorState::Running, ActorEvent::SourcesExhausted);
    assert_eq!(state, ActorState::Stopped);
}

#[test]
fn handshake_moves_connecting_to_running() {
    let (state, action) = actor_step(ActorState::Connecting, ActorEvent::HandshakeComplete);
    assert_eq!(state, ActorState::Running);
    assert_eq!(action, ActorAction::Ignore);
}

#[test]
fn stopped_is_absorbing() {
    let events = vec![
        ActorEvent::HandshakeComplete,
        ActorEvent::QueueInstruction(vec![1]),
        ActorEvent::TransportBinary(vec![2]),
        ActorEvent::TransportClose,
        ActorEvent::TransportOther,
        ActorEvent::TransmitResult(true),
        ActorEvent::SourcesExhausted,
    ];
    for event in events {
        let (state, action) = actor_step(ActorState::Stopped, event);
        assert_eq!(state, ActorState::Stopped);
        assert_eq!(action, ActorAction::Ignore);
    }
}
