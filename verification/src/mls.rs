//! The opaque boundary to the group-messaging protocol library.
//!
//! Every cryptographic operation — key schedules, ratcheting, signatures,
//! wire encoding — lives behind the trusted items below. Their values are
//! opaque here: the orchestration layer owns them, threads them through, and
//! reasons only about what these contracts state. Each failure is mapped to
//! this library's own error type at the boundary, so callers can keep
//! protocol failures apart from state-precondition errors.

use vstd::prelude::*;

use openmls::prelude::{
    Ciphersuite, Credential, CredentialType, CredentialWithKey, CryptoConfig, KeyPackage,
    KeyPackageIn, MlsGroup, MlsGroupConfig, MlsGroupConfigBuilder, MlsMessageIn, MlsMessageInBody,
    MlsMessageOut, OpenMlsCryptoProvider, ProcessedMessageContent, ProtocolMessage,
    ProtocolVersion, TlsDeserializeTrait, TlsSerializeTrait, Welcome,
};
use openmls_basic_credential::SignatureKeyPair;
use openmls_rust_crypto::OpenMlsRustCrypto;

use crate::errors::{DirectoryError, SessionError};

verus! {

#[verifier::external_type_specification]
#[verifier::external_body]
pub struct ExOpenMlsRustCrypto(OpenMlsRustCrypto);

#[verifier::external_type_specification]
#[verifier::external_body]
pub struct ExSignatureKeyPair(SignatureKeyPair);

#[verifier::external_type_specification]
#[verifier::external_body]
pub struct ExCredential(Credential);

#[verifier::external_type_specification]
#[verifier::external_body]
pub struct ExCredentialWithKey(CredentialWithKey);

#[verifier::external_type_specification]
#[verifier::external_body]
pub struct ExKeyPackage(KeyPackage);

#[verifier::external_type_specification]
#[verifier::external_body]
pub struct ExKeyPackageIn(KeyPackageIn);

#[verifier::external_type_specification]
#[verifier::external_body]
pub struct ExMlsGroup(MlsGroup);

#[verifier::external_type_specification]
#[verifier::external_body]
pub struct ExMlsMessageIn(MlsMessageIn);

#[verifier::external_type_specification]
#[verifier::external_body]
pub struct ExMlsMessageOut(MlsMessageOut);

#[verifier::external_type_specification]
#[verifier::external_body]
pub struct ExWelcome(Welcome);

#[verifier::external_type_specification]
#[verifier::external_body]
pub struct ExProtocolMessage(ProtocolMessage);

/// The decoded kind of an incoming envelope: a closed set, matched
/// exhaustively; everything this core does not handle is `Other`.
pub enum EnvelopeBody {
    /// What a new member needs to derive the group state and join.
    Welcome(Welcome),
    /// An encrypted application-data message, with the group id embedded in
    /// the envelope.
    Application { group_id: Vec<u8>, message: ProtocolMessage },
    /// Any other body kind (public handshake message, group info, key
    /// package); reported to the caller, never a crash.
    Other,
}

/// What processing an application envelope produced.
pub enum ProcessedKind {
    /// Decrypted application plaintext.
    Application(Vec<u8>),
    /// A protocol-internal result (proposal, staged commit): acknowledged,
    /// no user-visible payload.
    Other,
}

/// Relies on `OpenMlsRustCrypto::default`: a fresh crypto provider with an
/// empty key store.
#[verifier::external_body]
pub(crate) fn new_backend() -> OpenMlsRustCrypto {
    OpenMlsRustCrypto::default()
}

/// Relies on `Credential::new`: for the basic credential type it always
/// returns `Ok`, with the given bytes as the credential's identity.
#[verifier::external_body]
pub(crate) fn new_basic_credential(identity: &Vec<u8>) -> (r: Result<Credential, SessionError>)
    ensures
        r is Ok,
{
    Credential::new(identity.clone(), CredentialType::Basic).map_err(|_| SessionError::CryptoFailed)
}

/// Relies on `SignatureKeyPair::new`: generates a fresh signing key pair
/// from operating-system randomness; it may fail, and nothing can be said
/// of the value produced.
#[verifier::external_body]
pub(crate) fn new_signature_keypair() -> (r: Result<SignatureKeyPair, SessionError>)
    ensures
        r is Err ==> r->Err_0 == SessionError::CryptoFailed,
{
    SignatureKeyPair::new(
        Ciphersuite::MLS_128_DHKEMX25519_AES128GCM_SHA256_Ed25519.signature_algorithm(),
    ).map_err(|_| SessionError::CryptoFailed)
}

/// Relies on `SignatureKeyPair::public`: pairs a credential with the
/// signer's public key.
#[verifier::external_body]
pub(crate) fn credential_with_key(
    credential: Credential,
    signer: &SignatureKeyPair,
) -> CredentialWithKey {
    CredentialWithKey { credential, signature_key: signer.public().into() }
}

/// Relies on the derived `CredentialWithKey::clone`.
#[verifier::external_body]
pub(crate) fn clone_credential_with_key(credential: &CredentialWithKey) -> CredentialWithKey {
    credential.clone()
}

/// Relies on `KeyPackageBuilder::build`: builds a fresh key package bound
/// to the credential and stores its private keys in the provider's key
/// store for a later join.
#[verifier::external_body]
pub(crate) fn build_key_package(
    backend: &OpenMlsRustCrypto,
    signer: &SignatureKeyPair,
    credential: CredentialWithKey,
) -> (r: Result<KeyPackage, SessionError>)
    ensures
        r is Err ==> r->Err_0 == SessionError::KeyPackageFailed,
{
    let config = CryptoConfig {
        ciphersuite: Ciphersuite::MLS_128_DHKEMX25519_AES128GCM_SHA256_Ed25519,
        version: ProtocolVersion::default(),
    };
    KeyPackage::builder().build(config, backend, signer, credential).map_err(
        |_| SessionError::KeyPackageFailed,
    )
}

/// Relies on `tls_serialize_detached` for key packages.
#[verifier::external_body]
pub(crate) fn serialize_key_package(package: &KeyPackage) -> (r: Result<Vec<u8>, SessionError>)
    ensures
        r is Err ==> r->Err_0 == SessionError::SerializeFailed,
{
    package.tls_serialize_detached().map_err(|_| SessionError::SerializeFailed)
}

/// Whether the bytes decode as a key package.
pub uninterp spec fn kp_parses(bytes: Seq<u8>) -> bool;

/// The identity bytes readable from a key package's wire bytes: present
/// exactly when the bytes decode and the embedded credential carries an
/// identity. A function of the bytes alone.
pub uninterp spec fn kp_identity_of(bytes: Seq<u8>) -> Option<Seq<u8>>;

/// Relies on `KeyPackageIn::tls_deserialize`: decodes an unvalidated key
/// package from its wire bytes, succeeding exactly on well-formed input;
/// the caller maps the failure.
#[verifier::external_body]
pub(crate) fn deserialize_key_package(bytes: &[u8]) -> (r: Result<KeyPackageIn, ()>)
    ensures
        r is Ok <==> kp_parses(bytes@),
{
    let mut reader = bytes;
    KeyPackageIn::tls_deserialize(&mut reader).map_err(|_| ())
}

/// Relies on `KeyPackageIn::tls_deserialize`, `unverified_credential` and
/// `Credential::identity`: reads the identity embedded in a key package's
/// wire bytes. `identity` is only defined for the basic credential type (it
/// panics on others), so the credential type is checked first; a decode
/// failure and an unreadable identity are told apart in the error kind.
#[verifier::external_body]
pub(crate) fn parse_package_identity(bytes: &[u8]) -> (r: Result<Vec<u8>, DirectoryError>)
    ensures
        r is Ok <==> kp_identity_of(bytes@) is Some,
        r is Ok ==> r->Ok_0@ == kp_identity_of(bytes@)->Some_0,
        r is Ok ==> kp_parses(bytes@),
        r is Err ==> (r->Err_0 == DirectoryError::MalformedPackage <==> !kp_parses(bytes@)),
        r is Err ==> r->Err_0 == DirectoryError::MalformedPackage || r->Err_0
            == DirectoryError::MalformedIdentity,
{
    let mut reader = bytes;
    let package = match KeyPackageIn::tls_deserialize(&mut reader) {
        Ok(package) => package,
        Err(_) => { return Err(DirectoryError::MalformedPackage) },
    };
    let credential = package.unverified_credential().credential;
    match credential.credential_type() {
        CredentialType::Basic => Ok(credential.identity().to_vec()),
        _ => Err(DirectoryError::MalformedIdentity),
    }
}

/// Relies on `KeyPackageIn::validate`: verifies the signatures, lifetime,
/// and protocol version of a fetched package; the caller maps the failure.
#[verifier::external_body]
pub(crate) fn validate_key_package(
    package: KeyPackageIn,
    backend: &OpenMlsRustCrypto,
) -> Result<KeyPackage, ()> {
    package.validate(backend.crypto(), ProtocolVersion::default()).map_err(|_| ())
}

/// Relies on `MlsGroup::new`: materializes fresh group state with a random
/// group id, configured to carry ratchet-tree information in its own
/// envelopes so later joiners need no extra round-trip.
#[verifier::external_body]
pub(crate) fn mls_create_group(
    backend: &OpenMlsRustCrypto,
    signer: &SignatureKeyPair,
    credential: CredentialWithKey,
) -> (r: Result<MlsGroup, SessionError>)
    ensures
        r is Err ==> r->Err_0 == SessionError::GroupCreateFailed,
{
    let config = MlsGroupConfigBuilder::default().use_ratchet_tree_extension(true).build();
    MlsGroup::new(backend, signer, &config, credential).map_err(
        |_| SessionError::GroupCreateFailed,
    )
}

/// Relies on `MlsGroup::group_id`: the group's opaque id bytes.
#[verifier::external_body]
pub(crate) fn group_id_bytes(group: &MlsGroup) -> Vec<u8> {
    group.group_id().as_slice().to_vec()
}

/// Relies on `MlsGroup::add_members`: stages a commit that adds the member
/// and returns the welcome envelope for the invitee. On success a pending
/// commit is left staged; the caller must merge it before any further
/// operation on this group.
#[verifier::external_body]
pub(crate) fn add_member(
    group: &mut MlsGroup,
    backend: &OpenMlsRustCrypto,
    signer: &SignatureKeyPair,
    package: KeyPackage,
) -> (r: Result<MlsMessageOut, SessionError>)
    ensures
        r is Err ==> r->Err_0 == SessionError::AddMemberFailed,
{
    match group.add_members(backend, signer, &[package]) {
        Ok((_commit, welcome, _group_info)) => Ok(welcome),
        Err(_) => Err(SessionError::AddMemberFailed),
    }
}

/// Relies on `MlsGroup::merge_pending_commit`: merges the staged commit
/// into the group state (a no-op when nothing is staged).
#[verifier::external_body]
pub(crate) fn merge_pending_commit(
    group: &mut MlsGroup,
    backend: &OpenMlsRustCrypto,
) -> (r: Result<(), SessionError>)
    ensures
        r is Err ==> r->Err_0 == SessionError::MergeFailed,
{
    group.merge_pending_commit(backend).map_err(|_| SessionError::MergeFailed)
}

/// Relies on `tls_serialize_detached` for outgoing envelopes.
#[verifier::external_body]
pub(crate) fn serialize_message(message: &MlsMessageOut) -> (r: Result<Vec<u8>, SessionError>)
    ensures
        r is Err ==> r->Err_0 == SessionError::SerializeFailed,
{
    message.tls_serialize_detached().map_err(|_| SessionError::SerializeFailed)
}

/// Whether the bytes decode as a protocol envelope.
pub uninterp spec fn mls_parses(bytes: Seq<u8>) -> bool;

/// Whether well-formed envelope bytes carry a welcome body.
pub uninterp spec fn is_welcome_envelope(bytes: Seq<u8>) -> bool;

/// Whether well-formed envelope bytes carry an encrypted application body.
pub uninterp spec fn is_application_envelope(bytes: Seq<u8>) -> bool;

/// The group id embedded in an application envelope's bytes.
pub uninterp spec fn envelope_group_id(bytes: Seq<u8>) -> Seq<u8>;

/// Relies on `MlsMessageIn::tls_deserialize`, `MlsMessageIn::extract` and
/// `ProtocolMessage::group_id`: decodes an incoming envelope — succeeding
/// exactly on well-formed bytes, never panicking on malformed input — and
/// splits it into its body kind, one arm per protocol variant; a private
/// message carries the embedded group id out with it.
#[verifier::external_body]
pub(crate) fn decode_envelope(bytes: &[u8]) -> (r: Result<EnvelopeBody, SessionError>)
    ensures
        r is Ok <==> mls_parses(bytes@),
        r is Err ==> r->Err_0 == SessionError::DeserializeFailed,
        r is Ok ==> ((r->Ok_0 is Welcome) <==> is_welcome_envelope(bytes@)),
        r is Ok ==> ((r->Ok_0 is Application) <==> is_application_envelope(bytes@)),
        r is Ok ==> (r->Ok_0 matches EnvelopeBody::Application { group_id, .. } ==> group_id@
            == envelope_group_id(bytes@)),
{
    let mut reader = bytes;
    let message = match MlsMessageIn::tls_deserialize(&mut reader) {
        Ok(message) => message,
        Err(_) => { return Err(SessionError::DeserializeFailed) },
    };
    match message.extract() {
        MlsMessageInBody::Welcome(welcome) => Ok(EnvelopeBody::Welcome(welcome)),
        MlsMessageInBody::PrivateMessage(message) => {
            let message: ProtocolMessage = message.into();
            let group_id = message.group_id().as_slice().to_vec();
            Ok(EnvelopeBody::Application { group_id, message })
        },
        _ => Ok(EnvelopeBody::Other),
    }
}

/// Relies on `MlsGroup::new_from_welcome`: derives fresh group state from a
/// welcome envelope, using the private keys the key-package build left in
/// the provider's key store.
#[verifier::external_body]
pub(crate) fn join_from_welcome(
    backend: &OpenMlsRustCrypto,
    welcome: Welcome,
) -> (r: Result<MlsGroup, SessionError>)
    ensures
        r is Err ==> r->Err_0 == SessionError::JoinFailed,
{
    MlsGroup::new_from_welcome(backend, &MlsGroupConfig::default(), welcome, None).map_err(
        |_| SessionError::JoinFailed,
    )
}

/// Relies on `MlsGroup::process_message` and
/// `ProcessedMessage::into_content`: validates and decrypts an incoming
/// protocol message; application plaintext is handed out, every other
/// processed kind is acknowledged without payload.
#[verifier::external_body]
pub(crate) fn process_protocol_message(
    group: &mut MlsGroup,
    backend: &OpenMlsRustCrypto,
    message: ProtocolMessage,
) -> (r: Result<ProcessedKind, SessionError>)
    ensures
        r is Err ==> r->Err_0 == SessionError::ProcessingFailed,
{
    match group.process_message(backend, message) {
        Ok(processed) => match processed.into_content() {
            ProcessedMessageContent::ApplicationMessage(application) => Ok(
                ProcessedKind::Application(application.into_bytes()),
            ),
            _ => Ok(ProcessedKind::Other),
        },
        Err(_) => Err(SessionError::ProcessingFailed),
    }
}

/// Relies on `MlsGroup::create_message`: encrypts the plaintext under the
/// group's current epoch.
#[verifier::external_body]
pub(crate) fn encrypt_message(
    group: &mut MlsGroup,
    backend: &OpenMlsRustCrypto,
    signer: &SignatureKeyPair,
    plaintext: &[u8],
) -> (r: Result<MlsMessageOut, SessionError>)
    ensures
        r is Err ==> r->Err_0 == SessionError::EncryptFailed,
{
    group.create_message(backend, signer, plaintext).map_err(|_| SessionError::EncryptFailed)
}

} // verus!
