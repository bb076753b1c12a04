//! Error taxonomy and client-facing events.
//!
//! Input/validation errors and state-precondition errors are recoverable and
//! reported to the caller; protocol/cryptographic failures are kept distinct
//! from transport concerns so a caller can tell tampering apart from a broken
//! network.

use vstd::prelude::*;

verus! {

/// Errors of the key-package directory.
#[derive(Debug, Clone, Copy, PartialEq, Eq)]
pub enum DirectoryError {
    /// The published body could not be decoded as a key package.
    MalformedPackage,
    /// The identity inside the package is not valid text.
    MalformedIdentity,
    /// No entry is stored under the requested identity.
    NotFound,
}

/// Errors of the client-side group session manager.
#[derive(Debug, Clone, Copy, PartialEq, Eq)]
pub enum SessionError {
    /// No local user has been created yet.
    NoUser,
    /// A local user already exists; creating a second one is an error.
    UserExists,
    /// The named group is not known to this session.
    GroupNotFound,
    /// The fetched key package failed validation (bad signature, malformed
    /// content, or unsupported protocol version).
    PackageInvalid,
    /// An incoming envelope could not be deserialized; untrusted network
    /// input is rejected, never allowed to crash the process.
    DeserializeFailed,
    /// A welcome envelope could not be turned into local group state.
    JoinFailed,
    /// The group rejected an incoming message (replay, tampering, or an
    /// out-of-order protocol operation).
    ProcessingFailed,
    /// The envelope decoded to a body kind this core does not handle.
    UnsupportedEnvelope,
    /// The signing key pair could not be generated.
    CryptoFailed,
    /// A fresh key package could not be built.
    KeyPackageFailed,
    /// An outgoing value could not be serialized.
    SerializeFailed,
    /// New group state could not be materialized.
    GroupCreateFailed,
    /// The group rejected the add-member operation.
    AddMemberFailed,
    /// The staged commit could not be merged; the affected group state is
    /// discarded rather than reused.
    MergeFailed,
    /// The plaintext could not be encrypted under the current group epoch.
    EncryptFailed,
}

/// Events surfaced to the presentation layer by `process_incoming`.
#[derive(Debug, Clone, PartialEq, Eq)]
pub enum GroupEvent {
    /// A welcome envelope was absorbed and this peer joined the group.
    Joined { group_id: Vec<u8> },
    /// An application message was decrypted for a group this peer is in.
    MessageReceived { group_id: Vec<u8>, plaintext: Vec<u8> },
    /// The envelope was processed by the protocol (a proposal or a commit)
    /// but produced no user-visible payload.
    Acknowledged { group_id: Vec<u8> },
}

} // verus!
