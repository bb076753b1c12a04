//! The client-side group session manager.
//!
//! It owns at most one local user (credential plus signing key) and a map
//! from group id to opaque group state. It sequences key-package validation,
//! member addition, and the immediate merge of the staged commit; and it
//! classifies arriving envelopes (welcome / application message / other) and
//! routes them to the right group. A staged commit is never observable
//! across calls: `invite` merges before returning, and a group whose merge
//! failed is discarded rather than reused.

use vstd::prelude::*;
use vstd::string::StringSliceAdditionalSpecFns;

use openmls::prelude::MlsGroup;
use openmls_basic_credential::SignatureKeyPair;
use openmls::prelude::CredentialWithKey;
use openmls_rust_crypto::OpenMlsRustCrypto;

use crate::codec::b64url_of;
use crate::mls::{
    envelope_group_id, is_application_envelope, is_welcome_envelope, kp_parses, mls_parses,
};
use crate::errors::{GroupEvent, SessionError};
use crate::mls;

verus! {

struct LocalUser {
    /// The identity bytes the credential was derived from.
    identity: Vec<u8>,
    credential: CredentialWithKey,
    signature_key: SignatureKeyPair,
}

struct GroupEntry {
    id: Vec<u8>,
    state: MlsGroup,
    /// Whether a commit produced by add-member is staged and not yet
    /// merged. Never true when a public operation returns.
    pending: bool,
}

/// The ids of a run of group entries, in order.
spec fn ids_of(groups: Seq<GroupEntry>) -> Seq<Seq<u8>> {
    groups.map_values(|g: GroupEntry| g.id@)
}

/// All ids in the run are distinct.
spec fn distinct_seqs(s: Seq<Seq<u8>>) -> bool {
    forall|i: int, j: int| 0 <= i < j < s.len() ==> s[i] != s[j]
}

/// No entry in the run has a staged, unmerged commit.
spec fn none_pending(groups: Seq<GroupEntry>) -> bool {
    forall|i: int| 0 <= i < groups.len() ==> !groups[i].pending
}

/// Mathematical image of one group entry: its id and its opaque
/// cryptographic state.
pub ghost struct GroupView {
    pub id: Seq<u8>,
    pub state: MlsGroup,
}

/// The images of a run of group entries, in order.
spec fn views_of(groups: Seq<GroupEntry>) -> Seq<GroupView> {
    groups.map_values(|g: GroupEntry| GroupView { id: g.id@, state: g.state })
}

/// Mathematical image of the local user: identity bytes, credential, and
/// signing key.
pub ghost struct UserView {
    pub identity: Seq<u8>,
    pub credential: CredentialWithKey,
    pub signature_key: SignatureKeyPair,
}

/// `post` differs from `pre` at most in the entry with the id: every other
/// entry — its id and its opaque state — is still in place, untouched.
pub open spec fn preserves_other_groups(
    pre: Seq<GroupView>,
    post: Seq<GroupView>,
    id: Seq<u8>,
) -> bool {
    forall|k: int|
        0 <= k < pre.len() && pre[k].id != id ==> 0 <= k < post.len() && post[k] == pre[k]
}

/// Replacing one entry by another with the same id and no staged commit
/// keeps the ids, their distinctness, and the absence of staged commits.
proof fn lemma_entry_replaced(pre: Seq<GroupEntry>, now: Seq<GroupEntry>, i: int)
    requires
        distinct_seqs(ids_of(pre)),
        none_pending(pre),
        0 <= i < pre.len(),
        now.len() == pre.len(),
        forall|j: int| 0 <= j < pre.len() && j != i ==> now[j] == pre[j],
        now[i].id@ == pre[i].id@,
        !now[i].pending,
    ensures
        ids_of(now) == ids_of(pre),
        distinct_seqs(ids_of(now)),
        none_pending(now),
        preserves_other_groups(views_of(pre), views_of(now), pre[i].id@),
{
    assert(ids_of(now) =~= ids_of(pre));
    assert forall|j: int| 0 <= j < now.len() implies !now[j].pending by {
        if j != i {
            assert(now[j] == pre[j]);
        }
    }
    assert forall|k: int|
        0 <= k < views_of(pre).len() && views_of(pre)[k].id != pre[i].id@ implies 0 <= k
        < views_of(now).len() && views_of(now)[k] == views_of(pre)[k] by {
        assert(views_of(pre)[k].id == pre[k].id@);
        assert(now[k] == pre[k]);
    }
}

/// Appending an entry whose id is fresh keeps distinctness, extends the ids
/// by that id, and keeps the absence of staged commits.
proof fn lemma_entry_pushed(pre: Seq<GroupEntry>, e: GroupEntry)
    requires
        distinct_seqs(ids_of(pre)),
        none_pending(pre),
        !e.pending,
        forall|j: int| 0 <= j < pre.len() ==> pre[j].id@ != e.id@,
    ensures
        ids_of(pre.push(e)) == ids_of(pre).push(e.id@),
        distinct_seqs(ids_of(pre.push(e))),
        none_pending(pre.push(e)),
        views_of(pre.push(e)) == views_of(pre).push(GroupView { id: e.id@, state: e.state }),
        forall|k: int| 0 <= k < pre.len() ==> views_of(pre.push(e))[k] == views_of(pre)[k],
{
    assert(views_of(pre.push(e)) =~= views_of(pre).push(GroupView { id: e.id@, state: e.state }));
    assert(ids_of(pre.push(e)) =~= ids_of(pre).push(e.id@));
    let ids = ids_of(pre).push(e.id@);
    assert forall|a: int, b: int| 0 <= a < b < ids.len() implies ids[a] != ids[b] by {
        if b == ids.len() - 1 {
            assert(ids[a] == pre[a].id@);
        }
    }
    assert forall|j: int| 0 <= j < pre.push(e).len() implies !pre.push(e)[j].pending by {
        if j < pre.len() {
            assert(pre.push(e)[j] == pre[j]);
        }
    }
}

/// Removing an entry keeps the remaining ids, their distinctness, and the
/// absence of staged commits.
proof fn lemma_entry_removed(pre: Seq<GroupEntry>, i: int)
    requires
        distinct_seqs(ids_of(pre)),
        none_pending(pre),
        0 <= i < pre.len(),
    ensures
        ids_of(pre.remove(i)) == ids_of(pre).remove(i),
        distinct_seqs(ids_of(pre.remove(i))),
        none_pending(pre.remove(i)),
        views_of(pre.remove(i)) == views_of(pre).remove(i),
{
    let now = pre.remove(i);
    assert forall|j: int|
        0 <= j < now.len() implies views_of(now)[j] == views_of(pre).remove(i)[j] by {
        if j < i {
            assert(now[j] == pre[j]);
        } else {
            assert(now[j] == pre[j + 1]);
        }
    }
    assert(views_of(now) =~= views_of(pre).remove(i));
    assert forall|j: int| 0 <= j < now.len() implies ids_of(now)[j] == ids_of(pre).remove(i)[j]
        by {
        if j < i {
            assert(now[j] == pre[j]);
        } else {
            assert(now[j] == pre[j + 1]);
        }
    }
    assert(ids_of(now) =~= ids_of(pre).remove(i));
    assert forall|a: int, b: int| 0 <= a < b < ids_of(now).len() implies ids_of(now)[a]
        != ids_of(now)[b] by {
        let ra: int = if a < i { a } else { a + 1 };
        let rb: int = if b < i { b } else { b + 1 };
        assert(now[a] == pre[ra]);
        assert(now[b] == pre[rb]);
        assert(ids_of(pre)[ra] != ids_of(pre)[rb]);
    }
    assert forall|j: int| 0 <= j < now.len() implies !now[j].pending by {
        if j < i {
            assert(now[j] == pre[j]);
        } else {
            assert(now[j] == pre[j + 1]);
        }
    }
}

/// The session manager: one optional local user and the local group states.
pub struct SessionManager {
    backend: OpenMlsRustCrypto,
    user: Option<LocalUser>,
    groups: Vec<GroupEntry>,
}

impl SessionManager {
    /// Whether a local user has been created.
    pub closed spec fn has_user(&self) -> bool {
        self.user is Some
    }

    /// The local user's identity bytes.
    pub closed spec fn user_identity(&self) -> Seq<u8> {
        match self.user {
            Some(u) => u.identity@,
            None => Seq::empty(),
        }
    }

    /// The ids of the groups this session knows, in insertion order.
    pub closed spec fn group_ids(&self) -> Seq<Seq<u8>> {
        ids_of(self.groups@)
    }

    /// The groups this session knows — id and opaque state — in order.
    pub closed spec fn group_views(&self) -> Seq<GroupView> {
        views_of(self.groups@)
    }

    /// The local user in full: identity, credential, and signing key.
    pub closed spec fn user_view(&self) -> Option<UserView> {
        match self.user {
            Some(u) => Some(
                UserView {
                    identity: u.identity@,
                    credential: u.credential,
                    signature_key: u.signature_key,
                },
            ),
            None => None,
        }
    }

    /// Whether the session holds state for the group.
    pub open spec fn has_group(&self, id: Seq<u8>) -> bool {
        self.group_ids().contains(id)
    }

    /// No group is left with a staged, unmerged commit.
    pub closed spec fn no_pending_commits(&self) -> bool {
        none_pending(self.groups@)
    }

    /// Group ids are distinct and no commit is pending.
    pub closed spec fn wf(&self) -> bool {
        &&& distinct_seqs(self.group_ids())
        &&& self.no_pending_commits()
    }

    /// A fresh session: no user, no groups, a fresh crypto provider.
    pub fn new() -> (s: SessionManager)
        ensures
            !s.has_user(),
            s.group_ids() == Seq::<Seq<u8>>::empty(),
            s.group_views() == Seq::<GroupView>::empty(),
            s.wf(),
    {
        let s = SessionManager { backend: mls::new_backend(), user: None, groups: Vec::new() };
        proof {
            assert(s.group_ids() =~= Seq::<Seq<u8>>::empty());
            assert(s.group_views() =~= Seq::<GroupView>::empty());
        }
        s
    }

    /// Pure query: whether a local user exists. Never fails.
    pub fn is_authenticated(&self) -> (r: bool)
        ensures
            r == self.has_user(),
    {
        self.user.is_some()
    }

    /// Derives a credential and signing key pair from `name` and installs
    /// them as the local user. Calling it twice is an error, not a no-op.
    pub fn create_user(&mut self, name: &str) -> (r: Result<(), SessionError>)
        requires
            old(self).wf(),
        ensures
            final(self).wf(),
            final(self).group_ids() == old(self).group_ids(),
            final(self).group_views() == old(self).group_views(),
            old(self).has_user() ==> r is Err && r->Err_0 == SessionError::UserExists
                && final(self).has_user() && final(self).user_identity() == old(self).user_identity(),
            !old(self).has_user() && r is Ok ==> final(self).has_user() && final(self).user_identity() == name.spec_bytes(),
            !old(self).has_user() && r is Err ==> r->Err_0 == SessionError::CryptoFailed && !final(self).has_user(),
    {
        if self.user.is_some() {
            return Err(SessionError::UserExists);
        }
        let identity = vstd::slice::slice_to_vec(name.as_bytes());
        let credential = match mls::new_basic_credential(&identity) {
            Ok(c) => c,
            Err(_) => { return Err(SessionError::CryptoFailed) },
        };
        let signature_key = match mls::new_signature_keypair() {
            Ok(k) => k,
            Err(e) => { return Err(e) },
        };
        let credential = mls::credential_with_key(credential, &signature_key);
        self.user = Some(LocalUser { identity, credential, signature_key });
        Ok(())
    }

    /// The local user's identity, URL-safe encoded for display and routing.
    pub fn get_identity(&self) -> (r: Result<String, SessionError>)
        ensures
            !self.has_user() ==> r is Err && r->Err_0 == SessionError::NoUser,
            self.has_user() ==> r is Ok && r->Ok_0@ == b64url_of(self.user_identity()),
    {
        match &self.user {
            Some(u) => Ok(crate::codec::encode_base64url(u.identity.as_slice())),
            None => Err(SessionError::NoUser),
        }
    }

    /// Builds a fresh key package bound to the local credential and returns
    /// its wire bytes for the caller to publish to the remote directory;
    /// the network send itself is the caller's. The private keys stay in
    /// this session's key store so a later welcome can be absorbed.
    pub fn publish_key_package(&self) -> (r: Result<Vec<u8>, SessionError>)
        ensures
            !self.has_user() ==> r is Err && r->Err_0 == SessionError::NoUser,
            self.has_user() && r is Err ==> r->Err_0 == SessionError::KeyPackageFailed
                || r->Err_0 == SessionError::SerializeFailed,
    {
        let user = match &self.user {
            Some(u) => u,
            None => { return Err(SessionError::NoUser) },
        };
        let credential = mls::clone_credential_with_key(&user.credential);
        let package = match mls::build_key_package(
            &self.backend,
            &user.signature_key,
            credential,
        ) {
            Ok(p) => p,
            Err(e) => { return Err(e) },
        };
        mls::serialize_key_package(&package)
    }

    fn find_group(&self, id: &Vec<u8>) -> (r: Option<usize>)
        ensures
            match r {
                Some(i) => i < self.groups@.len() && self.groups@[i as int].id@ == id@,
                None => !self.has_group(id@),
            },
    {
        let mut i: usize = 0;
        while i < self.groups.len()
            invariant
                i <= self.groups@.len(),
                forall|j: int| 0 <= j < i ==> self.groups@[j].id@ != id@,
            decreases self.groups.len() - i,
        {
            if crate::bytes_eq(&self.groups[i].id, id) {
                return Some(i);
            }
            i = i + 1;
        }
        proof {
            assert(forall|j: int| 0 <= j < self.group_ids().len() ==> self.group_ids()[j] != id@);
        }
        None
    }

    /// Registers group state under its id, overwriting any previous state
    /// with the same id (ids are derived by the protocol and unique with
    /// overwhelming probability; overwriting keeps the map semantics).
    fn insert_group(&mut self, id: Vec<u8>, state: MlsGroup)
        requires
            old(self).wf(),
        ensures
            final(self).wf(),
            final(self).user == old(self).user,
            final(self).has_group(id@),
            forall|g: Seq<u8>| final(self).has_group(g) <==> (old(self).has_group(g) || g == id@),
            preserves_other_groups(old(self).group_views(), final(self).group_views(), id@),
            !old(self).has_group(id@) ==> final(self).group_views() == old(
                self,
            ).group_views().push(GroupView { id: id@, state }),
    {
        let ghost idv = id@;
        let ghost pre = self.groups@;
        match self.find_group(&id) {
            Some(i) => {
                let _old_entry = self.groups.remove(i);
                self.groups.insert(i, GroupEntry { id, state, pending: false });
                proof {
                    assert(self.groups@.len() == pre.len());
                    assert(forall|j: int|
                        0 <= j < pre.len() && j != i ==> self.groups@[j] == pre[j]);
                    assert(self.groups@[i as int].id@ == idv);
                    assert(idv == pre[i as int].id@);
                    assert(!self.groups@[i as int].pending);
                    lemma_entry_replaced(pre, self.groups@, i as int);
                    assert(preserves_other_groups(views_of(pre), views_of(self.groups@), idv));
                    assert(self.group_ids().contains(idv)) by {
                        assert(self.group_ids()[i as int] == idv);
                    }
                    assert forall|g: Seq<u8>|
                        final(self).has_group(g) <==> (ids_of(pre).contains(g) || g == idv) by {
                        if g == idv {
                            assert(self.group_ids()[i as int] == g);
                        }
                    }
                }
            },
            None => {
                self.groups.push(GroupEntry { id, state, pending: false });
                proof {
                    assert(self.groups@ == pre.push(self.groups@.last()));
                    assert(self.groups@.last().id@ == idv);
                    assert(!self.groups@.last().pending);
                    assert forall|j: int| 0 <= j < pre.len() implies pre[j].id@ != idv by {
                        assert(ids_of(pre)[j] == pre[j].id@);
                    }
                    lemma_entry_pushed(pre, self.groups@.last());
                    assert(ids_of(self.groups@) =~= ids_of(pre).push(idv));
                    assert(views_of(self.groups@) =~= views_of(pre).push(
                        GroupView { id: idv, state },
                    ));
                    assert(self.group_ids().contains(idv)) by {
                        assert(self.group_ids()[self.group_ids().len() - 1] == idv);
                    }
                    assert forall|g: Seq<u8>|
                        final(self).has_group(g) <==> (ids_of(pre).contains(g) || g == idv) by {
                        if ids_of(pre).contains(g) {
                            let j = choose|j: int|
                                0 <= j < ids_of(pre).len() && ids_of(pre)[j] == g;
                            assert(self.group_ids()[j] == g);
                        }
                        if final(self).has_group(g) && g != idv {
                            let j = choose|j: int|
                                0 <= j < self.group_ids().len() && self.group_ids()[j] == g;
                            assert(j < ids_of(pre).len());
                            assert(ids_of(pre)[j] == g);
                        }
                    }
                }
            },
        }
    }

    /// Materializes new group state configured to carry ratchet-tree
    /// information in its own envelopes, registers it under its derived id,
    /// and returns the id.
    pub fn create_group(&mut self) -> (r: Result<Vec<u8>, SessionError>)
        requires
            old(self).wf(),
        ensures
            final(self).wf(),
            final(self).has_user() == old(self).has_user(),
            final(self).user_identity() == old(self).user_identity(),
            final(self).user_view() == old(self).user_view(),
            !old(self).has_user() ==> r is Err && r->Err_0 == SessionError::NoUser && final(self).group_ids() == old(self).group_ids(),
            r is Err ==> final(self).group_views() == old(self).group_views(),
            old(self).has_user() && r is Err ==> r->Err_0 == SessionError::GroupCreateFailed
                && final(self).group_ids() == old(self).group_ids(),
            r is Ok ==> final(self).has_group(r->Ok_0@) && (forall|g: Seq<u8>|
                final(self).has_group(g) <==> (old(self).has_group(g) || g == r->Ok_0@)),
            r is Ok ==> preserves_other_groups(
                old(self).group_views(),
                final(self).group_views(),
                r->Ok_0@,
            ),
    {
        let user = match &self.user {
            Some(u) => u,
            None => { return Err(SessionError::NoUser) },
        };
        let credential = mls::clone_credential_with_key(&user.credential);
        let state = match mls::mls_create_group(&self.backend, &user.signature_key, credential) {
            Ok(g) => g,
            Err(e) => { return Err(e) },
        };
        let id = mls::group_id_bytes(&state);
        let id_out = crate::clone_bytes(&id);
        self.insert_group(id, state);
        Ok(id_out)
    }

    /// The ids of all currently known groups. Pure query.
    pub fn list_groups(&self) -> (r: Vec<Vec<u8>>)
        ensures
            r@.map_values(|v: Vec<u8>| v@) == self.group_ids(),
    {
        let mut out: Vec<Vec<u8>> = Vec::new();
        let mut i: usize = 0;
        proof {
            assert(out@.map_values(|v: Vec<u8>| v@) =~= self.group_ids().take(0));
        }
        while i < self.groups.len()
            invariant
                i <= self.groups@.len(),
                out@.map_values(|v: Vec<u8>| v@) =~= self.group_ids().take(i as int),
            decreases self.groups.len() - i,
        {
            let ghost pre = out@.map_values(|v: Vec<u8>| v@);
            out.push(crate::clone_bytes(&self.groups[i].id));
            proof {
                assert(out@.map_values(|v: Vec<u8>| v@) =~= pre.push(self.group_ids()[i as int]));
                assert(out@.map_values(|v: Vec<u8>| v@) =~= self.group_ids().take(i + 1));
            }
            i = i + 1;
        }
        proof {
            assert(self.group_ids().take(self.groups@.len() as int) =~= self.group_ids());
        }
        out
    }

    /// Whether this session holds state for the group. Pure query; lets a
    /// caller check the precondition order the directory flow asks for
    /// (user and group first, network fetch after) without attempting an
    /// operation.
    pub fn knows_group(&self, group_id: &Vec<u8>) -> (r: bool)
        ensures
            r == self.has_group(group_id@),
    {
        match self.find_group(group_id) {
            Some(i) => {
                proof {
                    assert(self.group_ids()[i as int] == group_id@);
                }
                true
            },
            None => false,
        }
    }

    /// Validates a fetched key package, adds its owner to the group, merges
    /// the staged commit at once, and returns the serialized welcome
    /// envelope for the caller to transmit to the invitee. Fetching the
    /// package from the remote directory is the caller's: this takes the
    /// fetched bytes. On success the group is intact and nothing is left
    /// staged. A merge failure discards the group rather than leaving
    /// corrupt state behind; a serialization failure after the merge is
    /// fatal to the call but not to the group.
    pub fn invite(&mut self, group_id: &Vec<u8>, package_bytes: &Vec<u8>) -> (r: Result<
        Vec<u8>,
        SessionError,
    >)
        requires
            old(self).wf(),
        ensures
            final(self).wf(),
            final(self).no_pending_commits(),
            final(self).has_user() == old(self).has_user(),
            final(self).user_identity() == old(self).user_identity(),
            final(self).user_view() == old(self).user_view(),
            !old(self).has_user() ==> r is Err && r->Err_0 == SessionError::NoUser && final(self).group_ids() == old(self).group_ids(),
            old(self).has_user() && !old(self).has_group(group_id@) ==> r is Err && r->Err_0
                == SessionError::GroupNotFound && final(self).group_ids() == old(self).group_ids(),
            old(self).has_user() && old(self).has_group(group_id@) && r is Err ==> (r->Err_0
                == SessionError::PackageInvalid || r->Err_0 == SessionError::AddMemberFailed
                || r->Err_0 == SessionError::MergeFailed || r->Err_0
                == SessionError::SerializeFailed),
            old(self).has_user() && old(self).has_group(group_id@) && !kp_parses(package_bytes@)
                ==> r is Err && r->Err_0 == SessionError::PackageInvalid,
            r is Ok ==> final(self).group_ids() == old(self).group_ids(),
            r is Err ==> (r->Err_0 == SessionError::NoUser || r->Err_0
                == SessionError::GroupNotFound || r->Err_0 == SessionError::PackageInvalid
                || r->Err_0 == SessionError::AddMemberFailed || r->Err_0
                == SessionError::MergeFailed || r->Err_0 == SessionError::SerializeFailed),
            r is Err && r->Err_0 != SessionError::MergeFailed ==> final(self).group_ids() == old(self).group_ids(),
            r is Err && (r->Err_0 == SessionError::NoUser || r->Err_0
                == SessionError::GroupNotFound || r->Err_0 == SessionError::PackageInvalid) ==>
                final(self).group_views() == old(self).group_views(),
            (r is Ok || (r is Err && r->Err_0 != SessionError::MergeFailed)) ==>
                preserves_other_groups(
                old(self).group_views(),
                final(self).group_views(),
                group_id@,
            ),
            r is Err && r->Err_0 == SessionError::MergeFailed ==> exists|i: int|
                0 <= i < old(self).group_ids().len() && old(self).group_ids()[i] == group_id@
                    && final(self).group_ids() == old(self).group_ids().remove(i)
                    && final(self).group_views() == old(self).group_views().remove(i),
    {
        if self.user.is_none() {
            return Err(SessionError::NoUser);
        }
        let i = match self.find_group(group_id) {
            Some(i) => i,
            None => { return Err(SessionError::GroupNotFound) },
        };
        proof {
            assert(self.group_ids()[i as int] == group_id@);
        }
        let parsed = match mls::deserialize_key_package(package_bytes.as_slice()) {
            Ok(p) => p,
            Err(_) => { return Err(SessionError::PackageInvalid) },
        };
        let validated = match mls::validate_key_package(parsed, &self.backend) {
            Ok(p) => p,
            Err(_) => { return Err(SessionError::PackageInvalid) },
        };
        let ghost pre = self.groups@;
        let mut entry = self.groups.remove(i);
        let user = match &self.user {
            Some(u) => u,
            None => { return Err(SessionError::NoUser) },
        };
        let welcome = match mls::add_member(
            &mut entry.state,
            &self.backend,
            &user.signature_key,
            validated,
        ) {
            Ok(w) => w,
            Err(e) => {
                self.groups.insert(i, entry);
                proof {
                    assert(self.groups@.len() == pre.len());
                    assert(forall|j: int|
                        0 <= j < pre.len() && j != i ==> self.groups@[j] == pre[j]);
                    assert(self.groups@[i as int].id@ == pre[i as int].id@);
                    assert(!self.groups@[i as int].pending);
                    lemma_entry_replaced(pre, self.groups@, i as int);
                }
                return Err(e);
            },
        };
        // The add staged a commit; merge it before anything else can
        // observe this group.
        entry.pending = true;
        match mls::merge_pending_commit(&mut entry.state, &self.backend) {
            Ok(_) => {
                entry.pending = false;
            },
            Err(e) => {
                // The group state is between add and merge: corrupt, so it
                // is discarded, never reused.
                proof {
                    assert(self.groups@ == pre.remove(i as int));
                    let iv: int = i as int;
                    lemma_entry_removed(pre, iv);
                    assert(0 <= iv < old(self).group_ids().len());
                    assert(old(self).group_ids()[iv] == group_id@);
                    assert(ids_of(self.groups@) == old(self).group_ids().remove(iv));
                    assert(views_of(self.groups@) == old(self).group_views().remove(iv));
                }
                return Err(e);
            },
        }
        self.groups.insert(i, entry);
        proof {
            assert(self.groups@.len() == pre.len());
            assert(forall|j: int| 0 <= j < pre.len() && j != i ==> self.groups@[j] == pre[j]);
            assert(self.groups@[i as int].id@ == pre[i as int].id@);
            assert(!self.groups@[i as int].pending);
            lemma_entry_replaced(pre, self.groups@, i as int);
        }
        mls::serialize_message(&welcome)
    }

    /// Encrypts `plaintext` under the group's current epoch and returns the
    /// serialized envelope to transmit.
    pub fn create_message(&mut self, group_id: &Vec<u8>, plaintext: &[u8]) -> (r: Result<
        Vec<u8>,
        SessionError,
    >)
        requires
            old(self).wf(),
        ensures
            final(self).wf(),
            final(self).group_ids() == old(self).group_ids(),
            final(self).has_user() == old(self).has_user(),
            final(self).user_identity() == old(self).user_identity(),
            final(self).user_view() == old(self).user_view(),
            !old(self).has_user() ==> r is Err && r->Err_0 == SessionError::NoUser,
            old(self).has_user() && !old(self).has_group(group_id@) ==> r is Err && r->Err_0
                == SessionError::GroupNotFound,
            old(self).has_user() && old(self).has_group(group_id@) && r is Err ==> (r->Err_0
                == SessionError::EncryptFailed || r->Err_0 == SessionError::SerializeFailed),
            r is Err ==> (r->Err_0 == SessionError::NoUser || r->Err_0
                == SessionError::GroupNotFound || r->Err_0 == SessionError::EncryptFailed
                || r->Err_0 == SessionError::SerializeFailed),
            r is Err && (r->Err_0 == SessionError::NoUser || r->Err_0
                == SessionError::GroupNotFound) ==> final(self).group_views() == old(
                self,
            ).group_views(),
            preserves_other_groups(old(self).group_views(), final(self).group_views(), group_id@),
    {
        if self.user.is_none() {
            return Err(SessionError::NoUser);
        }
        let i = match self.find_group(group_id) {
            Some(i) => i,
            None => { return Err(SessionError::GroupNotFound) },
        };
        proof {
            assert(self.group_ids()[i as int] == group_id@);
        }
        let ghost pre = self.groups@;
        let mut entry = self.groups.remove(i);
        let user = match &self.user {
            Some(u) => u,
            None => { return Err(SessionError::NoUser) },
        };
        let out = match mls::encrypt_message(
            &mut entry.state,
            &self.backend,
            &user.signature_key,
            plaintext,
        ) {
            Ok(m) => m,
            Err(e) => {
                self.groups.insert(i, entry);
                proof {
                    assert(self.groups@.len() == pre.len());
                    assert(forall|j: int|
                        0 <= j < pre.len() && j != i ==> self.groups@[j] == pre[j]);
                    assert(self.groups@[i as int].id@ == pre[i as int].id@);
                    assert(!self.groups@[i as int].pending);
                    lemma_entry_replaced(pre, self.groups@, i as int);
                }
                return Err(e);
            },
        };
        self.groups.insert(i, entry);
        proof {
            assert(self.groups@.len() == pre.len());
            assert(forall|j: int| 0 <= j < pre.len() && j != i ==> self.groups@[j] == pre[j]);
            assert(self.groups@[i as int].id@ == pre[i as int].id@);
            assert(!self.groups@[i as int].pending);
            lemma_entry_replaced(pre, self.groups@, i as int);
        }
        mls::serialize_message(&out)
    }

    /// Deserializes an incoming envelope (untrusted network input: rejected
    /// with an error on malformed bytes, never a panic) and routes it:
    /// a welcome derives fresh group state and joins; an application
    /// message is processed by the group it names; anything else is
    /// reported as unsupported.
    pub fn process_incoming(&mut self, envelope: &[u8]) -> (r: Result<GroupEvent, SessionError>)
        requires
            old(self).wf(),
        ensures
            final(self).wf(),
            final(self).has_user() == old(self).has_user(),
            final(self).user_identity() == old(self).user_identity(),
            final(self).user_view() == old(self).user_view(),
            r is Err ==> final(self).group_ids() == old(self).group_ids(),
            r is Err ==> (r->Err_0 == SessionError::DeserializeFailed || r->Err_0
                == SessionError::JoinFailed || r->Err_0 == SessionError::GroupNotFound || r->Err_0
                == SessionError::ProcessingFailed || r->Err_0 == SessionError::UnsupportedEnvelope),
            (r is Err && r->Err_0 == SessionError::DeserializeFailed) <==> !mls_parses(envelope@),
            (r is Err && r->Err_0 == SessionError::UnsupportedEnvelope) <==> (mls_parses(envelope@)
                && !is_welcome_envelope(envelope@) && !is_application_envelope(envelope@)),
            (r is Err && r->Err_0 == SessionError::GroupNotFound) <==> (mls_parses(envelope@)
                && is_application_envelope(envelope@) && !old(self).has_group(
                envelope_group_id(envelope@),
            )),
            r is Err && r->Err_0 == SessionError::JoinFailed ==> is_welcome_envelope(envelope@),
            r is Err && r->Err_0 == SessionError::ProcessingFailed ==> is_application_envelope(
                envelope@,
            ) && old(self).has_group(envelope_group_id(envelope@)),
            r is Err && r->Err_0 != SessionError::ProcessingFailed ==> final(self).group_views()
                == old(self).group_views(),
            mls_parses(envelope@) && is_application_envelope(envelope@) ==> preserves_other_groups(
                old(self).group_views(),
                final(self).group_views(),
                envelope_group_id(envelope@),
            ),
            r is Ok ==> ((r->Ok_0 is Joined) <==> is_welcome_envelope(envelope@)),
            r is Ok ==> (r->Ok_0 matches GroupEvent::Joined { group_id } ==> final(self).has_group(group_id@) && (forall|g: Seq<u8>|
                final(self).has_group(g) <==> (old(self).has_group(g) || g == group_id@))
                && preserves_other_groups(
                old(self).group_views(),
                final(self).group_views(),
                group_id@,
            )),
            r is Ok ==> (r->Ok_0 matches GroupEvent::MessageReceived { group_id, plaintext }
                ==> old(self).has_group(group_id@) && final(self).group_ids() == old(self).group_ids()
                && group_id@ == envelope_group_id(envelope@)),
            r is Ok ==> (r->Ok_0 matches GroupEvent::Acknowledged { group_id } ==> old(self).has_group(group_id@) && final(self).group_ids() == old(self).group_ids()
                && group_id@ == envelope_group_id(envelope@)),
    {
        let body = match mls::decode_envelope(envelope) {
            Ok(body) => body,
            Err(e) => { return Err(e) },
        };
        match body {
            mls::EnvelopeBody::Welcome(welcome) => {
                let state = match mls::join_from_welcome(&self.backend, welcome) {
                    Ok(g) => g,
                    Err(e) => { return Err(e) },
                };
                let id = mls::group_id_bytes(&state);
                let id_out = crate::clone_bytes(&id);
                self.insert_group(id, state);
                Ok(GroupEvent::Joined { group_id: id_out })
            },
            mls::EnvelopeBody::Application { group_id: id, message: protocol_message } => {
                let i = match self.find_group(&id) {
                    Some(i) => i,
                    None => { return Err(SessionError::GroupNotFound) },
                };
                proof {
                    assert(self.group_ids()[i as int] == id@);
                }
                let ghost pre = self.groups@;
                let mut entry = self.groups.remove(i);
                let kind = match mls::process_protocol_message(
                    &mut entry.state,
                    &self.backend,
                    protocol_message,
                ) {
                    Ok(k) => k,
                    Err(e) => {
                        self.groups.insert(i, entry);
                        proof {
                            assert(self.groups@.len() == pre.len());
                            assert(forall|j: int|
                                0 <= j < pre.len() && j != i ==> self.groups@[j] == pre[j]);
                            assert(self.groups@[i as int].id@ == pre[i as int].id@);
                            assert(!self.groups@[i as int].pending);
                            lemma_entry_replaced(pre, self.groups@, i as int);
                        }
                        return Err(e);
                    },
                };
                self.groups.insert(i, entry);
                proof {
                    assert(self.groups@.len() == pre.len());
                    assert(forall|j: int|
                        0 <= j < pre.len() && j != i ==> self.groups@[j] == pre[j]);
                    assert(self.groups@[i as int].id@ == pre[i as int].id@);
                    assert(!self.groups@[i as int].pending);
                    assert(ids_of(self.groups@) =~= ids_of(pre));
                    assert(old(self).has_group(id@)) by {
                        assert(ids_of(pre)[i as int] == id@);
                    }
                }
                match kind {
                    mls::ProcessedKind::Application(plaintext) => Ok(
                        GroupEvent::MessageReceived { group_id: id, plaintext },
                    ),
                    mls::ProcessedKind::Other => Ok(GroupEvent::Acknowledged { group_id: id }),
                }
            },
            mls::EnvelopeBody::Other => Err(SessionError::UnsupportedEnvelope),
        }
    }
}

/// Law: a session's group ids are exactly its group views' ids, in order —
/// so every clause over one view determines the other.
pub proof fn lemma_group_ids_from_views(s: &SessionManager)
    ensures
        s.group_ids() == s.group_views().map_values(|v: GroupView| v.id),
{
    assert forall|k: int|
        0 <= k < s.group_ids().len() implies s.group_ids()[k] == s.group_views().map_values(
        |v: GroupView| v.id,
    )[k] by {}
    assert(s.group_ids() =~= s.group_views().map_values(|v: GroupView| v.id));
}

} // verus!
