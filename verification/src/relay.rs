//! The peer registry and its broadcast fan-out.
//!
//! One `Peer` models a live connection's actor handle: an identifier, an
//! inbound queue of binary frames, and an open/closed flag (closed means the
//! actor has died and its queue no longer accepts frames). The `Registry` is
//! the shared collection of live handles. A broadcast from one peer enqueues
//! the frame on every *other* open peer's queue — never back onto the
//! sender's — and prunes, in the same pass, every dead peer the attempt
//! failed against. Delivery is best effort: a dead peer never blocks
//! delivery to healthy peers.
//!
//! The model tracks each queue's contents; the physical queue's bound, and
//! the backpressure it causes, belong to the runtime that owns the real
//! channel.

use vstd::prelude::*;

verus! {

/// Mathematical image of one peer: its id, whether its queue still accepts
/// frames, and the frames waiting in its inbound queue.
pub ghost struct PeerView {
    pub id: u64,
    pub open: bool,
    pub queue: Seq<Seq<u8>>,
}

struct Peer {
    id: u64,
    open: bool,
    queue: Vec<Vec<u8>>,
}

impl View for Peer {
    type V = PeerView;

    closed spec fn view(&self) -> PeerView {
        PeerView { id: self.id, open: self.open, queue: self.queue@.map_values(|m: Vec<u8>| m@) }
    }
}

/// True when some peer in `ps` has the id.
pub open spec fn has_peer(ps: Seq<PeerView>, id: u64) -> bool {
    exists|i: int| 0 <= i < ps.len() && ps[i].id == id
}

/// The index of the peer with the id (unique when ids are distinct).
pub open spec fn peer_index(ps: Seq<PeerView>, id: u64) -> int {
    choose|i: int| 0 <= i < ps.len() && ps[i].id == id
}

/// The peer with the id.
pub open spec fn peer_of(ps: Seq<PeerView>, id: u64) -> PeerView {
    ps[peer_index(ps, id)]
}

/// No two peers share an id.
pub open spec fn distinct_ids(ps: Seq<PeerView>) -> bool {
    forall|i: int, j: int| 0 <= i < j < ps.len() ==> ps[i].id != ps[j].id
}

/// What one kept peer looks like after a broadcast: every peer but the
/// sender has the frame appended; the sender's queue is untouched.
pub open spec fn delivered(p: PeerView, sender: u64, payload: Seq<u8>) -> PeerView {
    if p.id == sender {
        p
    } else {
        PeerView { id: p.id, open: p.open, queue: p.queue.push(payload) }
    }
}

/// Whether a broadcast keeps the peer in the registry: the sender always
/// stays; any other peer stays exactly when its queue is still open.
pub open spec fn kept_by_broadcast(p: PeerView, sender: u64) -> bool {
    p.id == sender || p.open
}

/// The registry after a broadcast: dead targets pruned, the frame delivered
/// to every remaining peer but the sender.
pub open spec fn broadcast_view(ps: Seq<PeerView>, sender: u64, payload: Seq<u8>) -> Seq<PeerView> {
    ps.filter(|p: PeerView| kept_by_broadcast(p, sender)).map_values(
        |p: PeerView| delivered(p, sender, payload),
    )
}

/// The shared collection of live peer handles.
pub struct Registry {
    peers: Vec<Peer>,
}

impl View for Registry {
    type V = Seq<PeerView>;

    closed spec fn view(&self) -> Seq<PeerView> {
        self.peers@.map_values(|p: Peer| p@)
    }
}

impl Registry {
    /// Registry ids are distinct, so each id denotes at most one peer.
    pub open spec fn wf(&self) -> bool {
        distinct_ids(self@)
    }

    pub fn new() -> (r: Registry)
        ensures
            r@ == Seq::<PeerView>::empty(),
            r.wf(),
    {
        let r = Registry { peers: Vec::new() };
        proof {
            assert(r@ =~= Seq::<PeerView>::empty());
        }
        r
    }

    fn index_of_id(&self, id: u64) -> (r: Option<usize>)
        ensures
            match r {
                Some(i) => i < self@.len() && self@[i as int].id == id,
                None => !has_peer(self@, id),
            },
    {
        let mut i: usize = 0;
        while i < self.peers.len()
            invariant
                i <= self@.len(),
                self@.len() == self.peers@.len(),
                forall|j: int| 0 <= j < i ==> self@[j].id != id,
            decreases self.peers.len() - i,
        {
            if self.peers[i].id == id {
                assert(self@[i as int].id == id);
                return Some(i);
            }
            assert(self@[i as int] == self.peers@[i as int]@);
            i = i + 1;
        }
        None
    }

    /// Whether a peer with the id is currently registered.
    pub fn contains(&self, id: u64) -> (r: bool)
        ensures
            r == has_peer(self@, id),
    {
        match self.index_of_id(id) {
            Some(i) => {
                proof {
                    assert(0 <= i < self@.len() && self@[i as int].id == id);
                }
                true
            },
            None => false,
        }
    }

    /// Registers a fresh peer handle with an open, empty inbound queue.
    /// Refused when the id is already taken, so ids stay distinct.
    pub fn register(&mut self, id: u64) -> (r: bool)
        requires
            old(self).wf(),
        ensures
            final(self).wf(),
            r == !has_peer(old(self)@, id),
            r ==> final(self)@ == old(self)@.push(
                PeerView { id, open: true, queue: Seq::empty() },
            ),
            !r ==> final(self)@ == old(self)@,
    {
        match self.index_of_id(id) {
            Some(_) => false,
            None => {
                let p = Peer { id, open: true, queue: Vec::new() };
                proof {
                    assert(p@ == (PeerView { id, open: true, queue: Seq::<Seq<u8>>::empty() }))
                        by {
                        assert(p@.queue =~= Seq::<Seq<u8>>::empty());
                    }
                }
                self.peers.push(p);
                proof {
                    assert(self@ =~= old(self)@.push(
                        PeerView { id, open: true, queue: Seq::empty() },
                    ));
                }
                true
            },
        }
    }

    /// Marks the peer's transport as closed: its queue stops accepting
    /// frames, and the next broadcast that fails against it prunes it.
    pub fn close(&mut self, id: u64)
        requires
            old(self).wf(),
        ensures
            final(self).wf(),
            !has_peer(old(self)@, id) ==> final(self)@ == old(self)@,
            has_peer(old(self)@, id) ==> {
                let i = peer_index(old(self)@, id);
                final(self)@ == old(self)@.update(
                    i,
                    PeerView { id: old(self)@[i].id, open: false, queue: old(self)@[i].queue },
                )
            },
    {
        match self.index_of_id(id) {
            Some(i) => {
                let ghost iv = i as int;
                let mut p = self.peers.remove(i);
                p.open = false;
                self.peers.insert(i, p);
                proof {
                    let pre = old(self)@;
                    lemma_unique_index(pre, id, iv);
                    assert(self@ =~= pre.update(
                        iv,
                        PeerView { id: pre[iv].id, open: false, queue: pre[iv].queue },
                    ));
                }
            },
            None => {},
        }
    }

    /// The public operation of a peer-actor handle: try to enqueue a frame
    /// on the peer's inbound queue. Fails exactly when no such peer exists
    /// or the peer is dead (its queue is closed); a failed attempt changes
    /// nothing.
    pub fn forward(&mut self, id: u64, payload: &Vec<u8>) -> (r: bool)
        requires
            old(self).wf(),
        ensures
            final(self).wf(),
            r == (has_peer(old(self)@, id) && peer_of(old(self)@, id).open),
            !r ==> final(self)@ == old(self)@,
            r ==> {
                let i = peer_index(old(self)@, id);
                final(self)@ == old(self)@.update(
                    i,
                    PeerView {
                        id: old(self)@[i].id,
                        open: old(self)@[i].open,
                        queue: old(self)@[i].queue.push(payload@),
                    },
                )
            },
    {
        match self.index_of_id(id) {
            Some(i) => {
                let ghost pre = old(self)@;
                let ghost iv = i as int;
                proof {
                    lemma_unique_index(pre, id, iv);
                }
                if self.peers[i].open {
                    let mut p = self.peers.remove(i);
                    p.queue.push(crate::clone_bytes(payload));
                    self.peers.insert(i, p);
                    proof {
                        assert(p@.queue =~= pre[iv].queue.push(payload@));
                        assert(self@ =~= pre.update(
                            iv,
                            PeerView {
                                id: pre[iv].id,
                                open: pre[iv].open,
                                queue: pre[iv].queue.push(payload@),
                            },
                        ));
                    }
                    true
                } else {
                    false
                }
            },
            None => false,
        }
    }

    /// Dequeues the oldest pending frame of the peer's inbound queue; this
    /// models the actor consuming its own mailbox.
    pub fn take_next(&mut self, id: u64) -> (r: Option<Vec<u8>>)
        requires
            old(self).wf(),
        ensures
            final(self).wf(),
            r is None ==> final(self)@ == old(self)@ && (!has_peer(old(self)@, id) || peer_of(
                old(self)@,
                id,
            ).queue.len() == 0),
            r is Some ==> has_peer(old(self)@, id) && {
                let i = peer_index(old(self)@, id);
                old(self)@[i].queue.len() > 0 && r->Some_0@ == old(self)@[i].queue[0]
                    && final(self)@ == old(self)@.update(
                    i,
                    PeerView {
                        id: old(self)@[i].id,
                        open: old(self)@[i].open,
                        queue: old(self)@[i].queue.drop_first(),
                    },
                )
            },
    {
        match self.index_of_id(id) {
            Some(i) => {
                let ghost pre = old(self)@;
                let ghost iv = i as int;
                proof {
                    lemma_unique_index(pre, id, iv);
                }
                if self.peers[i].queue.len() > 0 {
                    let mut p = self.peers.remove(i);
                    let front = p.queue.remove(0);
                    self.peers.insert(i, p);
                    proof {
                        assert(p@.queue =~= pre[iv].queue.drop_first());
                        assert(self@ =~= pre.update(
                            iv,
                            PeerView {
                                id: pre[iv].id,
                                open: pre[iv].open,
                                queue: pre[iv].queue.drop_first(),
                            },
                        ));
                        assert(front@ == pre[iv].queue[0]);
                    }
                    Some(front)
                } else {
                    None
                }
            },
            None => None,
        }
    }

    /// Fan-out of one binary frame from `sender`: every other open peer gets
    /// the frame appended to its queue, the sender gets nothing back, and
    /// every dead target the attempt failed against is removed in the same
    /// sweep. The operation is total — a dead or absent peer never makes it
    /// fail.
    pub fn broadcast(&mut self, sender: u64, payload: &Vec<u8>)
        requires
            old(self).wf(),
        ensures
            final(self)@ == broadcast_view(old(self)@, sender, payload@),
            final(self).wf(),
    {
        let ghost orig: Seq<PeerView> = self@;
        let mut kept: Vec<Peer> = Vec::new();
        proof {
            assert(orig.take(0) =~= Seq::<PeerView>::empty());
            assert(orig.take(0).filter(|p: PeerView| kept_by_broadcast(p, sender)) =~= Seq::<
                PeerView,
            >::empty());
            assert(kept@.map_values(|p: Peer| p@) =~= Seq::<PeerView>::empty());
            assert(broadcast_view(orig.take(0), sender, payload@) =~= Seq::<PeerView>::empty());
        }
        while self.peers.len() > 0
            invariant
                self@.len() <= orig.len(),
                self@ =~= orig.skip(orig.len() - self@.len()),
                kept@.map_values(|p: Peer| p@) =~= broadcast_view(
                    orig.take(orig.len() - self@.len()),
                    sender,
                    payload@,
                ),
                self@.len() == self.peers@.len(),
            decreases self.peers.len(),
        {
            let ghost k = orig.len() - self@.len();
            let ghost pre_kept = kept@.map_values(|p: Peer| p@);
            let ghost pre_self: Seq<PeerView> = self@;
            let ghost pre_peers: Seq<Peer> = self.peers@;
            let mut p = self.peers.remove(0);
            proof {
                assert(p == pre_peers[0]);
                assert(pre_self[0] == pre_peers[0]@);
                assert(pre_self =~= orig.skip(k));
                assert(orig.skip(k)[0] == orig[k + 0]);
                assert(p@ == orig[k]);
                assert(self.peers@ =~= pre_peers.remove(0));
                assert forall|j: int| 0 <= j < self@.len() implies self@[j] == orig.skip(k + 1)[j]
                    by {
                    assert(self@[j] == self.peers@[j]@);
                    assert(self.peers@[j] == pre_peers[j + 1]);
                    assert(pre_self[j + 1] == pre_peers[j + 1]@);
                    assert(orig.skip(k)[j + 1] == orig[k + j + 1]);
                    assert(orig.skip(k + 1)[j] == orig[k + 1 + j]);
                }
                assert(self@ =~= orig.skip(k + 1));
                assert(orig.take(k + 1) =~= orig.take(k).push(orig[k]));
            }
            if p.id == sender {
                proof {
                    assert(kept_by_broadcast(p@, sender));
                    assert(delivered(p@, sender, payload@) == p@);
                }
                kept.push(p);
            } else if p.open {
                p.queue.push(crate::clone_bytes(payload));
                proof {
                    assert(p@.queue =~= orig[k].queue.push(payload@));
                    assert(p@ == delivered(orig[k], sender, payload@));
                    assert(kept_by_broadcast(orig[k], sender));
                }
                kept.push(p);
            } else {
                proof {
                    assert(!kept_by_broadcast(orig[k], sender));
                }
            }
            proof {
                lemma_broadcast_view_push(orig.take(k), orig[k], sender, payload@);
                let f = |q: PeerView| kept_by_broadcast(q, sender);
                let d = |q: PeerView| delivered(q, sender, payload@);
                if f(orig[k]) {
                    assert(kept@.map_values(|q: Peer| q@) =~= pre_kept.push(d(orig[k])));
                } else {
                    assert(kept@.map_values(|q: Peer| q@) =~= pre_kept);
                }
                assert(kept@.map_values(|q: Peer| q@) =~= broadcast_view(
                    orig.take(k + 1),
                    sender,
                    payload@,
                ));
            }
        }
        proof {
            assert(orig.take(orig.len() - self@.len()) =~= orig);
        }
        self.peers = kept;
        proof {
            assert(self@ =~= broadcast_view(orig, sender, payload@));
            lemma_broadcast_view_characterized(orig, sender, payload@);
        }
    }
}

/// With distinct ids, an index holding the id is the unique one, and
/// `peer_of` denotes that very peer.
pub proof fn lemma_unique_index(ps: Seq<PeerView>, id: u64, i: int)
    requires
        distinct_ids(ps),
        0 <= i < ps.len(),
        ps[i].id == id,
    ensures
        has_peer(ps, id),
        peer_index(ps, id) == i,
        peer_of(ps, id) == ps[i],
{
    assert(has_peer(ps, id));
    let j = peer_index(ps, id);
    assert(0 <= j < ps.len() && ps[j].id == id);
    if i != j {
        if i < j {
            assert(ps[i].id != ps[j].id);
        } else {
            assert(ps[j].id != ps[i].id);
        }
        assert(false);
    }
}

/// How a broadcast unfolds over one more peer at the end of the registry.
pub proof fn lemma_broadcast_view_push(ps: Seq<PeerView>, p: PeerView, sender: u64, payload: Seq<u8>)
    ensures
        kept_by_broadcast(p, sender) ==> broadcast_view(ps.push(p), sender, payload)
            == broadcast_view(ps, sender, payload).push(delivered(p, sender, payload)),
        !kept_by_broadcast(p, sender) ==> broadcast_view(ps.push(p), sender, payload)
            == broadcast_view(ps, sender, payload),
{
    let f = |q: PeerView| kept_by_broadcast(q, sender);
    let d = |q: PeerView| delivered(q, sender, payload);
    ps.lemma_filter_push(p, f);
    if f(p) {
        ps.filter(f).lemma_push_map_commute(d, p);
        assert(broadcast_view(ps.push(p), sender, payload) =~= broadcast_view(
            ps,
            sender,
            payload,
        ).push(d(p)));
    }
}

/// Law of the broadcast sweep. After a broadcast from `sender` over peers
/// with distinct ids:
/// - ids stay distinct;
/// - a peer survives exactly when it is the sender or was open;
/// - every surviving peer other than the sender has the frame appended to
///   its queue (so every other connected, live peer observes the frame);
/// - the sender's own entry is untouched — the frame is never echoed back;
/// - in particular a dead peer is absent afterwards, and its death never
///   prevented delivery to the others.
pub proof fn lemma_broadcast_view_characterized(ps: Seq<PeerView>, sender: u64, payload: Seq<u8>)
    requires
        distinct_ids(ps),
    ensures
        distinct_ids(broadcast_view(ps, sender, payload)),
        forall|id: u64| #[trigger]
            has_peer(broadcast_view(ps, sender, payload), id) <==> (has_peer(ps, id)
                && kept_by_broadcast(peer_of(ps, id), sender)),
        forall|id: u64|
            has_peer(broadcast_view(ps, sender, payload), id) ==> #[trigger] peer_of(
                broadcast_view(ps, sender, payload),
                id,
            ) == delivered(peer_of(ps, id), sender, payload),
    decreases ps.len(),
{
    let bv = broadcast_view(ps, sender, payload);
    if ps.len() == 0 {
        assert(ps.filter(|q: PeerView| kept_by_broadcast(q, sender)) =~= Seq::<PeerView>::empty());
        assert(bv =~= Seq::<PeerView>::empty());
        assert forall|id: u64| !has_peer(bv, id) && !has_peer(ps, id) by {}
    } else {
        let dl = ps.drop_last();
        let last = ps.last();
        assert(ps =~= dl.push(last));
        assert(distinct_ids(dl)) by {
            assert(forall|i: int, j: int|
                0 <= i < j < dl.len() ==> dl[i] == ps[i] && dl[j] == ps[j]);
        }
        lemma_broadcast_view_characterized(dl, sender, payload);
        lemma_broadcast_view_push(dl, last, sender, payload);
        let bdl = broadcast_view(dl, sender, payload);

        // The last peer's id appears nowhere earlier, neither in `dl` nor in
        // its broadcast image.
        assert(!has_peer(dl, last.id)) by {
            if has_peer(dl, last.id) {
                let i = choose|i: int| 0 <= i < dl.len() && dl[i].id == last.id;
                assert(ps[i].id == ps[ps.len() - 1].id);
                assert(false);
            }
        }
        assert(!has_peer(bdl, last.id));

        assert forall|id: u64| #[trigger]
            has_peer(bv, id) implies (has_peer(ps, id) && kept_by_broadcast(
            peer_of(ps, id),
            sender,
        )) by {
            let i = choose|i: int| 0 <= i < bv.len() && bv[i].id == id;
            if kept_by_broadcast(last, sender) && i == bv.len() - 1 {
                assert(bv[i] == delivered(last, sender, payload));
                assert(id == last.id);
                lemma_unique_index(ps, id, ps.len() - 1);
            } else {
                assert(bv[i] == bdl[i]);
                assert(has_peer(bdl, id));
                assert(has_peer(dl, id) && kept_by_broadcast(peer_of(dl, id), sender));
                let j = peer_index(dl, id);
                assert(dl[j] == ps[j]);
                lemma_unique_index(ps, id, j);
            }
        }
        assert forall|id: u64|
            has_peer(ps, id) && kept_by_broadcast(peer_of(ps, id), sender) implies #[trigger]
        has_peer(bv, id) by {
            let i = peer_index(ps, id);
            if i == ps.len() - 1 {
                assert(peer_of(ps, id) == last);
                assert(kept_by_broadcast(last, sender));
                assert(bv =~= bdl.push(delivered(last, sender, payload)));
                assert(bv[bv.len() - 1].id == id);
            } else {
                assert(dl[i] == ps[i]);
                lemma_unique_index(dl, id, i);
                assert(has_peer(bdl, id));
                let j = peer_index(bdl, id);
                assert(bv[j].id == id);
            }
        }
        assert forall|id: u64| has_peer(bv, id) implies #[trigger] peer_of(bv, id) == delivered(
            peer_of(ps, id),
            sender,
        payload) by {
            assert(has_peer(ps, id) && kept_by_broadcast(peer_of(ps, id), sender));
            let i = peer_index(ps, id);
            if i == ps.len() - 1 {
                // id belongs to the last peer, whose image sits at the end.
                assert(peer_of(ps, id) == last);
                assert(bv =~= bdl.push(delivered(last, sender, payload)));
                assert(distinct_ids(bv)) by {
                    lemma_broadcast_distinct(dl, last, sender, payload);
                }
                lemma_unique_index(bv, id, bv.len() - 1);
            } else {
                assert(dl[i] == ps[i]);
                lemma_unique_index(dl, id, i);
                assert(has_peer(bdl, id));
                assert(peer_of(bdl, id) == delivered(peer_of(dl, id), sender, payload));
                let j = peer_index(bdl, id);
                assert(bdl[j] == peer_of(bdl, id));
                if kept_by_broadcast(last, sender) {
                    assert(bv =~= bdl.push(delivered(last, sender, payload)));
                    assert(bv[j] == bdl[j]);
                    assert(distinct_ids(bv)) by {
                        lemma_broadcast_distinct(dl, last, sender, payload);
                    }
                    lemma_unique_index(bv, id, j);
                } else {
                    assert(bv == bdl);
                    lemma_unique_index(bv, id, j);
                }
            }
        }
        assert(distinct_ids(bv)) by {
            lemma_broadcast_distinct(dl, last, sender, payload);
        }
    }
}

/// Distinctness of ids survives one broadcast-unfold step.
proof fn lemma_broadcast_distinct(dl: Seq<PeerView>, last: PeerView, sender: u64, payload: Seq<u8>)
    requires
        distinct_ids(dl.push(last)),
        distinct_ids(broadcast_view(dl, sender, payload)),
        forall|id: u64| #[trigger]
            has_peer(broadcast_view(dl, sender, payload), id) <==> (has_peer(dl, id)
                && kept_by_broadcast(peer_of(dl, id), sender)),
    ensures
        distinct_ids(broadcast_view(dl.push(last), sender, payload)),
{
    let bdl = broadcast_view(dl, sender, payload);
    lemma_broadcast_view_push(dl, last, sender, payload);
    assert(!has_peer(dl, last.id)) by {
        if has_peer(dl, last.id) {
            let i = choose|i: int| 0 <= i < dl.len() && dl[i].id == last.id;
            let ps = dl.push(last);
            assert(ps[i].id == ps[ps.len() - 1].id);
            assert(false);
        }
    }
    assert(!has_peer(bdl, last.id));
    if kept_by_broadcast(last, sender) {
        let bv = bdl.push(delivered(last, sender, payload));
        assert forall|i: int, j: int| 0 <= i < j < bv.len() implies bv[i].id != bv[j].id by {
            if j == bv.len() - 1 {
                assert(bv[i] == bdl[i]);
                if bv[i].id == last.id {
                    assert(has_peer(bdl, last.id));
                }
            }
        }
    }
}

} // verus!

