//! The key-package directory: one join-credential blob per identity.
//!
//! Identities are opaque byte strings; an identity that is not valid text is
//! refused at publish time. Publishing overwrites (last write wins), lookup
//! is exact, and listing returns every known identity exactly once. The
//! directory performs no cryptographic validation: packages are validated by
//! the peer that consumes them.

use vstd::prelude::*;

use crate::codec::is_utf8;
use crate::mls::{kp_identity_of, kp_parses};
use crate::errors::DirectoryError;

verus! {

/// The map denoted by an association list, later entries overwriting
/// earlier ones.
pub closed spec fn entries_map(s: Seq<(Vec<u8>, Vec<u8>)>) -> Map<Seq<u8>, Seq<u8>>
    decreases s.len(),
{
    if s.len() == 0 {
        Map::empty()
    } else {
        entries_map(s.drop_last()).insert(s.last().0@, s.last().1@)
    }
}

/// No two entries share an identity.
spec fn distinct_keys(s: Seq<(Vec<u8>, Vec<u8>)>) -> bool {
    forall|i: int, j: int| 0 <= i < j < s.len() ==> s[i].0@ != s[j].0@
}

proof fn lemma_entries_map_push(s: Seq<(Vec<u8>, Vec<u8>)>, e: (Vec<u8>, Vec<u8>))
    ensures
        entries_map(s.push(e)) == entries_map(s).insert(e.0@, e.1@),
{
    assert(s.push(e).drop_last() =~= s);
    assert(s.push(e).last() == e);
}

proof fn lemma_entries_map_domain(s: Seq<(Vec<u8>, Vec<u8>)>, k: Seq<u8>)
    ensures
        entries_map(s).contains_key(k) <==> exists|i: int| 0 <= i < s.len() && s[i].0@ == k,
    decreases s.len(),
{
    if s.len() == 0 {
    } else {
        let dl = s.drop_last();
        lemma_entries_map_domain(dl, k);
        if entries_map(s).contains_key(k) {
            if k == s.last().0@ {
                assert(s[s.len() - 1].0@ == k);
            } else {
                let i = choose|i: int| 0 <= i < dl.len() && dl[i].0@ == k;
                assert(s[i].0@ == k);
            }
        }
        if exists|i: int| 0 <= i < s.len() && s[i].0@ == k {
            let i = choose|i: int| 0 <= i < s.len() && s[i].0@ == k;
            if i == s.len() - 1 {
                assert(entries_map(s).contains_key(k));
            } else {
                assert(dl[i].0@ == k);
            }
        }
    }
}

proof fn lemma_entries_map_value(s: Seq<(Vec<u8>, Vec<u8>)>, i: int)
    requires
        distinct_keys(s),
        0 <= i < s.len(),
    ensures
        entries_map(s).contains_key(s[i].0@),
        entries_map(s)[s[i].0@] == s[i].1@,
    decreases s.len(),
{
    lemma_entries_map_domain(s, s[i].0@);
    if i == s.len() - 1 {
    } else {
        let dl = s.drop_last();
        assert(distinct_keys(dl));
        assert(dl[i] == s[i]);
        lemma_entries_map_value(dl, i);
        assert(s[i].0@ != s.last().0@);
    }
}

proof fn lemma_entries_map_update(s: Seq<(Vec<u8>, Vec<u8>)>, i: int, e: (Vec<u8>, Vec<u8>))
    requires
        distinct_keys(s),
        0 <= i < s.len(),
        s[i].0@ == e.0@,
    ensures
        entries_map(s.update(i, e)) =~= entries_map(s).insert(e.0@, e.1@),
    decreases s.len(),
{
    let up = s.update(i, e);
    if i == s.len() - 1 {
        assert(up.drop_last() =~= s.drop_last());
        assert(up.last() == e);
        assert(entries_map(s.drop_last()).insert(s.last().0@, s.last().1@).insert(e.0@, e.1@)
            =~= entries_map(s.drop_last()).insert(e.0@, e.1@));
    } else {
        let dl = s.drop_last();
        assert(distinct_keys(dl));
        assert(dl[i] == s[i]);
        lemma_entries_map_update(dl, i, e);
        assert(up.drop_last() =~= dl.update(i, e));
        assert(up.last() == s.last());
        // The overwritten key differs from the last entry's key, so the two
        // inserts commute.
        assert(e.0@ != s.last().0@);
    }
}

/// The identity→key-package store.
pub struct Directory {
    entries: Vec<(Vec<u8>, Vec<u8>)>,
}

impl View for Directory {
    type V = Map<Seq<u8>, Seq<u8>>;

    closed spec fn view(&self) -> Map<Seq<u8>, Seq<u8>> {
        entries_map(self.entries@)
    }
}

impl Directory {
    /// Stored identities are distinct, so the association list denotes its
    /// map faithfully.
    pub closed spec fn wf(&self) -> bool {
        distinct_keys(self.entries@)
    }

    pub fn new() -> (d: Directory)
        ensures
            d@ == Map::<Seq<u8>, Seq<u8>>::empty(),
            d.wf(),
    {
        let d = Directory { entries: Vec::new() };
        proof {
            assert(d.entries@.len() == 0);
        }
        d
    }

    fn index_of(&self, identity: &Vec<u8>) -> (r: Option<usize>)
        ensures
            match r {
                Some(i) => i < self.entries@.len() && self.entries@[i as int].0@ == identity@,
                None => forall|j: int| 0 <= j < self.entries@.len() ==> self.entries@[j].0@
                    != identity@,
            },
    {
        let mut i: usize = 0;
        while i < self.entries.len()
            invariant
                i <= self.entries@.len(),
                forall|j: int| 0 <= j < i ==> self.entries@[j].0@ != identity@,
            decreases self.entries.len() - i,
        {
            if crate::bytes_eq(&self.entries[i].0, identity) {
                return Some(i);
            }
            i = i + 1;
        }
        None
    }

    /// Stores or overwrites the entry for the identity; the change is
    /// visible to every subsequent `get` and `list`. An identity that is not
    /// valid text is refused with `MalformedIdentity` and nothing changes.
    /// The package itself is not validated here.
    pub fn publish(&mut self, identity: Vec<u8>, package: Vec<u8>) -> (r: Result<
        (),
        DirectoryError,
    >)
        requires
            old(self).wf(),
        ensures
            final(self).wf(),
            !is_utf8(identity@) ==> r == Err::<(), DirectoryError>(DirectoryError::MalformedIdentity)
                && final(self)@ == old(self)@,
            is_utf8(identity@) ==> r == Ok::<(), DirectoryError>(()) && final(self)@ == old(
                self,
            )@.insert(identity@, package@),
    {
        if !crate::codec::utf8_valid(identity.as_slice()) {
            return Err(DirectoryError::MalformedIdentity);
        }
        let ghost pre = self.entries@;
        match self.index_of(&identity) {
            Some(i) => {
                let ghost idv = identity@;
                let ghost pkv = package@;
                self.entries.set(i, (identity, package));
                proof {
                    assert(self.entries@ =~= pre.update(i as int, (self.entries@[i as int])));
                    assert(self.entries@[i as int].0@ == idv);
                    assert(self.entries@[i as int].1@ == pkv);
                    lemma_entries_map_update(pre, i as int, self.entries@[i as int]);
                    assert(distinct_keys(self.entries@)) by {
                        assert(forall|j: int|
                            0 <= j < pre.len() && j != i ==> self.entries@[j] == pre[j]);
                    }
                }
                Ok(())
            },
            None => {
                let ghost idv = identity@;
                let ghost pkv = package@;
                self.entries.push((identity, package));
                proof {
                    let e = self.entries@.last();
                    assert(self.entries@ =~= pre.push(e));
                    assert(e.0@ == idv && e.1@ == pkv);
                    lemma_entries_map_push(pre, e);
                    assert(distinct_keys(self.entries@)) by {
                        assert(forall|j: int| 0 <= j < pre.len() ==> self.entries@[j] == pre[j]);
                    }
                }
                Ok(())
            },
        }
    }

    /// Returns the stored package for the identity, bit-for-bit, or
    /// `NotFound` when no entry exists.
    pub fn get(&self, identity: &Vec<u8>) -> (r: Result<Vec<u8>, DirectoryError>)
        requires
            self.wf(),
        ensures
            self@.contains_key(identity@) ==> r is Ok && r->Ok_0@ == self@[identity@],
            !self@.contains_key(identity@) ==> r == Err::<Vec<u8>, DirectoryError>(
                DirectoryError::NotFound,
            ),
    {
        proof {
            lemma_entries_map_domain(self.entries@, identity@);
        }
        match self.index_of(identity) {
            Some(i) => {
                proof {
                    lemma_entries_map_value(self.entries@, i as int);
                }
                Ok(crate::clone_bytes(&self.entries[i].1))
            },
            None => Err(DirectoryError::NotFound),
        }
    }

    /// Returns every known identity exactly once; the order is not part of
    /// the contract.
    pub fn list(&self) -> (r: Vec<Vec<u8>>)
        requires
            self.wf(),
        ensures
            r@.map_values(|v: Vec<u8>| v@).to_set() =~= self@.dom(),
            r@.map_values(|v: Vec<u8>| v@).no_duplicates(),
            r@.len() == self@.dom().len(),
    {
        let mut out: Vec<Vec<u8>> = Vec::new();
        let mut i: usize = 0;
        proof {
            assert(out@.map_values(|v: Vec<u8>| v@) =~= Seq::<Seq<u8>>::empty());
        }
        while i < self.entries.len()
            invariant
                i <= self.entries@.len(),
                distinct_keys(self.entries@),
                out@.map_values(|v: Vec<u8>| v@) =~= Seq::new(
                    i as nat,
                    |j: int| self.entries@[j].0@,
                ),
            decreases self.entries.len() - i,
        {
            let ghost pre = out@.map_values(|v: Vec<u8>| v@);
            out.push(crate::clone_bytes(&self.entries[i].0));
            proof {
                assert(out@.map_values(|v: Vec<u8>| v@) =~= pre.push(
                    self.entries@[i as int].0@,
                ));
                assert(out@.map_values(|v: Vec<u8>| v@) =~= Seq::new(
                    (i + 1) as nat,
                    |j: int| self.entries@[j].0@,
                ));
            }
            i = i + 1;
        }
        proof {
            let keys = out@.map_values(|v: Vec<u8>| v@);
            assert(keys.len() == self.entries@.len());
            assert(keys.no_duplicates()) by {
                assert(forall|a: int, b: int|
                    0 <= a < b < keys.len() ==> keys[a] != keys[b]);
            }
            assert(keys.to_set() =~= self@.dom()) by {
                assert forall|k: Seq<u8>| keys.to_set().contains(k) implies self@.dom().contains(
                    k,
                ) by {
                    let a = choose|a: int| 0 <= a < keys.len() && keys[a] == k;
                    lemma_entries_map_value(self.entries@, a);
                }
                assert forall|k: Seq<u8>| self@.dom().contains(k) implies keys.to_set().contains(
                    k,
                ) by {
                    lemma_entries_map_domain(self.entries@, k);
                    let a = choose|a: int|
                        0 <= a < self.entries@.len() && self.entries@[a].0@ == k;
                    assert(keys[a] == k);
                }
            }
            keys.unique_seq_to_set();
        }
        out
    }

    /// How many identities are known.
    pub fn len(&self) -> (r: usize)
        requires
            self.wf(),
        ensures
            r == self@.dom().len(),
    {
        proof {
            let keys = Seq::new(
                self.entries@.len(),
                |j: int| self.entries@[j].0@,
            );
            assert(keys.no_duplicates());
            assert(keys.to_set() =~= self@.dom()) by {
                assert forall|k: Seq<u8>| keys.to_set().contains(k) implies self@.dom().contains(
                    k,
                ) by {
                    let a = choose|a: int| 0 <= a < keys.len() && keys[a] == k;
                    lemma_entries_map_value(self.entries@, a);
                }
                assert forall|k: Seq<u8>| self@.dom().contains(k) implies keys.to_set().contains(
                    k,
                ) by {
                    lemma_entries_map_domain(self.entries@, k);
                    let a = choose|a: int|
                        0 <= a < self.entries@.len() && self.entries@[a].0@ == k;
                    assert(keys[a] == k);
                }
            }
            keys.unique_seq_to_set();
        }
        self.entries.len()
    }
}

/// Decodes a published body as a key package, extracts the identity bytes
/// embedded in its credential, and stores the body verbatim under that
/// identity (so a later `get` returns it bit-for-bit). Publication succeeds
/// exactly when the body carries a readable identity that is valid text: a
/// body that does not decode is refused with `MalformedPackage`, and an
/// identity that cannot be read or is not valid text with
/// `MalformedIdentity`. The stored identity is returned.
pub fn publish_package(directory: &mut Directory, package: Vec<u8>) -> (r: Result<
    Vec<u8>,
    DirectoryError,
>)
    requires
        old(directory).wf(),
    ensures
        final(directory).wf(),
        r is Ok <==> (kp_identity_of(package@) is Some && is_utf8(
            kp_identity_of(package@)->Some_0,
        )),
        r is Ok ==> r->Ok_0@ == kp_identity_of(package@)->Some_0 && final(directory)@ == old(
            directory,
        )@.insert(kp_identity_of(package@)->Some_0, package@),
        (r is Err && r->Err_0 == DirectoryError::MalformedPackage) <==> !kp_parses(package@),
        r is Err ==> final(directory)@ == old(directory)@ && (r->Err_0
            == DirectoryError::MalformedPackage || r->Err_0 == DirectoryError::MalformedIdentity),
{
    let identity = match crate::mls::parse_package_identity(package.as_slice()) {
        Ok(identity) => identity,
        Err(e) => { return Err(e) },
    };
    let identity_out = crate::clone_bytes(&identity);
    match directory.publish(identity, package) {
        Ok(_) => Ok(identity_out),
        Err(e) => Err(e),
    }
}

/// Law: a publish followed by a get of the same identity returns the
/// package bit-for-bit, and identities never published stay absent.
pub proof fn lemma_publish_then_get(
    m: Map<Seq<u8>, Seq<u8>>,
    identity: Seq<u8>,
    package: Seq<u8>,
    other: Seq<u8>,
)
    ensures
        m.insert(identity, package).contains_key(identity),
        m.insert(identity, package)[identity] == package,
        other != identity && !m.contains_key(other) ==> !m.insert(identity, package).contains_key(
            other,
        ),
{
}

/// The directory after a sequence of publishes, in order.
pub open spec fn publish_all(
    m: Map<Seq<u8>, Seq<u8>>,
    ids: Seq<Seq<u8>>,
    pkgs: Seq<Seq<u8>>,
) -> Map<Seq<u8>, Seq<u8>>
    recommends
        ids.len() == pkgs.len(),
    decreases ids.len(),
{
    if ids.len() == 0 {
        m
    } else {
        publish_all(m, ids.drop_last(), pkgs.drop_last()).insert(ids.last(), pkgs.last())
    }
}

/// Law: publishing N packages under N distinct identities into an empty
/// directory leaves exactly those N identities known — so `list` returns
/// exactly N distinct identities.
pub proof fn lemma_distinct_publish_count(ids: Seq<Seq<u8>>, pkgs: Seq<Seq<u8>>)
    requires
        ids.no_duplicates(),
        pkgs.len() == ids.len(),
    ensures
        publish_all(Map::empty(), ids, pkgs).dom() =~= ids.to_set(),
        publish_all(Map::empty(), ids, pkgs).dom().len() == ids.len(),
    decreases ids.len(),
{
    broadcast use vstd::seq_lib::group_seq_properties;

    if ids.len() == 0 {
        assert(publish_all(Map::empty(), ids, pkgs).dom() =~= ids.to_set());
    } else {
        let dl_ids = ids.drop_last();
        let dl_pkgs = pkgs.drop_last();
        assert(dl_ids.no_duplicates());
        lemma_distinct_publish_count(dl_ids, dl_pkgs);
        assert(publish_all(Map::empty(), ids, pkgs).dom() =~= dl_ids.to_set().insert(ids.last()));
        assert(ids =~= dl_ids.push(ids.last()));
        dl_ids.lemma_push_to_set_commute(ids.last());
        assert(!dl_ids.to_set().contains(ids.last())) by {
            if dl_ids.to_set().contains(ids.last()) {
                let a = choose|a: int| 0 <= a < dl_ids.len() && dl_ids[a] == ids.last();
                assert(ids[a] == ids[ids.len() - 1]);
            }
        }
        assert(dl_ids.to_set().insert(ids.last()).len() == dl_ids.to_set().len() + 1);
    }
}

/// Law: two publishes under different identities commute — the directory's
/// final contents do not depend on the order of distinct publishes.
pub proof fn lemma_publish_commutes(
    m: Map<Seq<u8>, Seq<u8>>,
    id1: Seq<u8>,
    pkg1: Seq<u8>,
    id2: Seq<u8>,
    pkg2: Seq<u8>,
)
    requires
        id1 != id2,
    ensures
        m.insert(id1, pkg1).insert(id2, pkg2) == m.insert(id2, pkg2).insert(id1, pkg1),
{
    assert(m.insert(id1, pkg1).insert(id2, pkg2) =~= m.insert(id2, pkg2).insert(id1, pkg1));
}

} // verus!
