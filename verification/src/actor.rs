//! The per-connection actor's state machine.
//!
//! One actor owns a physical connection and an inbound instruction queue.
//! Two event sources drive it concurrently — frames from the transport and
//! forward-instructions from the queue — with no priority between them. The
//! decision of what each event does is a pure function here; the surrounding
//! runtime performs the chosen action (transmitting a frame, broadcasting to
//! the registry) and feeds the outcome back in as the next event.

use vstd::prelude::*;

verus! {

/// Lifecycle of one actor: it connects, runs, and stops for good.
#[derive(Debug, Clone, Copy, PartialEq, Eq, Structural)]
pub enum ActorState {
    /// The transport handshake has not completed yet.
    Connecting,
    /// Registered and serving both event sources.
    Running,
    /// Dead; the handle is dropped and the registry prunes it lazily.
    Stopped,
}

/// One event from either source, or an outcome fed back by the runtime.
#[derive(Debug, Clone, PartialEq, Eq)]
pub enum ActorEvent {
    /// The transport handshake completed and the actor was registered.
    HandshakeComplete,
    /// A forward-instruction arrived on the inbound queue.
    QueueInstruction(Vec<u8>),
    /// A binary application frame arrived on the transport.
    TransportBinary(Vec<u8>),
    /// The transport delivered a close signal.
    TransportClose,
    /// A non-binary, non-close frame arrived; log-worthy but not fatal.
    TransportOther,
    /// The runtime reports whether transmitting over the transport worked.
    TransmitResult(bool),
    /// Both event sources are exhausted with nothing pending.
    SourcesExhausted,
}

/// What the runtime must do after a step.
#[derive(Debug, Clone, PartialEq, Eq)]
pub enum ActorAction {
    /// Nothing to perform.
    Ignore,
    /// Send the payload out over this actor's own transport.
    Transmit(Vec<u8>),
    /// Fan the payload out to every other registered peer.
    Broadcast(Vec<u8>),
}

/// The transition table. In `Running`:
/// - a close signal stops the actor;
/// - a non-binary, non-close frame is ignored;
/// - a binary frame is fanned out to the other peers (never transmitted
///   back over this actor's own transport);
/// - a queue instruction is transmitted over the transport;
/// - a failed transmit stops the actor quietly, a successful one does not;
/// - exhausted sources stop the actor.
/// `Connecting` waits for the handshake; `Stopped` is final.
pub open spec fn spec_actor_step(state: ActorState, event: ActorEvent) -> (ActorState, ActorAction) {
    match state {
        ActorState::Connecting => match event {
            ActorEvent::HandshakeComplete => (ActorState::Running, ActorAction::Ignore),
            ActorEvent::TransportClose => (ActorState::Stopped, ActorAction::Ignore),
            ActorEvent::SourcesExhausted => (ActorState::Stopped, ActorAction::Ignore),
            _ => (ActorState::Connecting, ActorAction::Ignore),
        },
        ActorState::Running => match event {
            ActorEvent::HandshakeComplete => (ActorState::Running, ActorAction::Ignore),
            ActorEvent::QueueInstruction(payload) => (
                ActorState::Running,
                ActorAction::Transmit(payload),
            ),
            ActorEvent::TransportBinary(payload) => (
                ActorState::Running,
                ActorAction::Broadcast(payload),
            ),
            ActorEvent::TransportClose => (ActorState::Stopped, ActorAction::Ignore),
            ActorEvent::TransportOther => (ActorState::Running, ActorAction::Ignore),
            ActorEvent::TransmitResult(ok) => if ok {
                (ActorState::Running, ActorAction::Ignore)
            } else {
                (ActorState::Stopped, ActorAction::Ignore)
            },
            ActorEvent::SourcesExhausted => (ActorState::Stopped, ActorAction::Ignore),
        },
        ActorState::Stopped => (ActorState::Stopped, ActorAction::Ignore),
    }
}

/// Executes one decision step; the result is exactly the transition table.
pub fn actor_step(state: ActorState, event: ActorEvent) -> (r: (ActorState, ActorAction))
    ensures
        r == spec_actor_step(state, event),
{
    match state {
        ActorState::Connecting => match event {
            ActorEvent::HandshakeComplete => (ActorState::Running, ActorAction::Ignore),
            ActorEvent::TransportClose => (ActorState::Stopped, ActorAction::Ignore),
            ActorEvent::SourcesExhausted => (ActorState::Stopped, ActorAction::Ignore),
            _ => (ActorState::Connecting, ActorAction::Ignore),
        },
        ActorState::Running => match event {
            ActorEvent::HandshakeComplete => (ActorState::Running, ActorAction::Ignore),
            ActorEvent::QueueInstruction(payload) => (
                ActorState::Running,
                ActorAction::Transmit(payload),
            ),
            ActorEvent::TransportBinary(payload) => (
                ActorState::Running,
                ActorAction::Broadcast(payload),
            ),
            ActorEvent::TransportClose => (ActorState::Stopped, ActorAction::Ignore),
            ActorEvent::TransportOther => (ActorState::Running, ActorAction::Ignore),
            ActorEvent::TransmitResult(ok) => if ok {
                (ActorState::Running, ActorAction::Ignore)
            } else {
                (ActorState::Stopped, ActorAction::Ignore)
            },
            ActorEvent::SourcesExhausted => (ActorState::Stopped, ActorAction::Ignore),
        },
        ActorState::Stopped => (ActorState::Stopped, ActorAction::Ignore),
    }
}

/// Law: `Stopped` is absorbing — no event revives a stopped actor, and a
/// stopped actor performs no action.
pub proof fn lemma_stopped_is_final(event: ActorEvent)
    ensures
        spec_actor_step(ActorState::Stopped, event) == (ActorState::Stopped, ActorAction::Ignore),
{
}

/// Law: a running actor never transmits a received binary frame back over
/// its own transport — it only broadcasts it to the others.
pub proof fn lemma_binary_never_echoed(payload: Vec<u8>)
    ensures
        spec_actor_step(ActorState::Running, ActorEvent::TransportBinary(payload)) == (
            ActorState::Running,
            ActorAction::Broadcast(payload),
        ),
{
}

} // verus!
