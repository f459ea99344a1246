//! The signaling hub: the registry of connected peers and the routing of
//! envelopes between them.
//!
//! Every operation is a pure state transition. The executable [`Hub`] is
//! specified against [`HubModel`], a sequence of per-peer records whose
//! outboxes are bounded queues: an envelope enqueued into a full outbox is
//! dropped and the peer's overflow counter is incremented, so no operation
//! ever waits on a slow peer.
//!
//! A peer goes through three stages: attached (transport open, not yet
//! registered), registered (present in the roster, may route), gone
//! (detached). Envelopes other than `register` from an attached peer are
//! answered with a "Not registered" error into that peer's own outbox.

use vstd::prelude::*;

use crate::bytes::{bytes_eq, copy_bytes};
use crate::envelope::{RouteKind, ServerEnvelope, ServerEnvelopeModel, UserInfo, UserInfoModel};
use vstd::slice::slice_to_vec;

verus! {

/// Bound on the number of envelopes an outbox may hold; an envelope enqueued
/// beyond it is dropped (drop-newest).
pub const OUTBOX_CAPACITY: usize = 100;

/// Mathematical model of one peer's slot in the hub.
#[verifier::ext_equal]
pub struct PeerModel {
    pub user_id: Seq<u8>,
    pub display_name: Seq<u8>,
    pub registered: bool,
    pub outbox: Seq<ServerEnvelopeModel>,
    pub dropped: nat,
}

/// Mathematical model of the hub: the peers in attachment order.
#[verifier::ext_equal]
pub struct HubModel {
    pub peers: Seq<PeerModel>,
}

impl HubModel {
    /// Some slot (attached or registered) carries this identity.
    pub open spec fn has_peer(self, id: Seq<u8>) -> bool {
        exists|i: int| 0 <= i < self.peers.len() && self.peers[i].user_id == id
    }

    /// Index of the slot carrying this identity (unique under `wf`).
    pub open spec fn peer_index(self, id: Seq<u8>) -> int {
        choose|i: int| 0 <= i < self.peers.len() && self.peers[i].user_id == id
    }

    /// The slot carrying this identity.
    pub open spec fn peer(self, id: Seq<u8>) -> PeerModel {
        self.peers[self.peer_index(id)]
    }

    /// Well-formedness: identities are distinct across slots.
    pub open spec fn wf(self) -> bool {
        forall|i: int, j: int|
            0 <= i < self.peers.len() && 0 <= j < self.peers.len() && i != j
                ==> self.peers[i].user_id != self.peers[j].user_id
    }

    /// The set of identities currently registered: the registry.
    pub open spec fn registered_ids(self) -> Set<Seq<u8>> {
        Set::new(|id: Seq<u8>| self.has_peer(id) && self.peer(id).registered)
    }
}

/// Saturating increment, mirroring the executable overflow counter.
pub open spec fn sat_inc(d: nat) -> nat {
    if d < u64::MAX as nat {
        d + 1
    } else {
        d
    }
}

/// Enqueue one envelope into a peer's outbox; on overflow the envelope is
/// dropped and the peer's counter incremented.
pub open spec fn enqueue_one(p: PeerModel, e: ServerEnvelopeModel) -> PeerModel {
    if p.outbox.len() < OUTBOX_CAPACITY {
        PeerModel { outbox: p.outbox.push(e), ..p }
    } else {
        PeerModel { dropped: sat_inc(p.dropped), ..p }
    }
}

/// The roster: the registered peers, in attachment order.
pub open spec fn roster_of(peers: Seq<PeerModel>) -> Seq<UserInfoModel>
    decreases peers.len(),
{
    if peers.len() == 0 {
        Seq::empty()
    } else {
        let rest = roster_of(peers.drop_last());
        let last = peers.last();
        if last.registered {
            rest.push(UserInfoModel { user_id: last.user_id, display_name: last.display_name })
        } else {
            rest
        }
    }
}

/// Enqueue `e` to every registered peer other than `exclude`.
pub open spec fn broadcast_t(
    peers: Seq<PeerModel>,
    exclude: Seq<u8>,
    e: ServerEnvelopeModel,
) -> Seq<PeerModel> {
    peers.map_values(
        |q: PeerModel|
            if q.registered && q.user_id != exclude {
                enqueue_one(q, e)
            } else {
                q
            },
    )
}

/// The message of the error envelope answered to an unregistered peer.
pub open spec fn not_registered_message() -> Seq<u8> {
    vstd::utf8::encode_utf8("Not registered"@)
}

/// The message of the error envelope answered when a routing target is
/// absent from the registry.
pub open spec fn target_not_found_message() -> Seq<u8> {
    vstd::utf8::encode_utf8("Target user not found"@)
}

/// Attach: add a pre-registration slot for a fresh identity; an identity
/// already present leaves the hub unchanged.
pub open spec fn attach_t(m: HubModel, id: Seq<u8>) -> HubModel {
    if m.has_peer(id) {
        m
    } else {
        HubModel {
            peers: m.peers.push(
                PeerModel {
                    user_id: id,
                    display_name: Seq::empty(),
                    registered: false,
                    outbox: Seq::empty(),
                    dropped: 0,
                },
            ),
        }
    }
}

/// Register: move an attached peer into the registry and, in this order,
/// enqueue `registered` and the roster snapshot (including the caller) to
/// the caller, then `user_joined` to every other registered peer. A second
/// register for the same identity is ignored, as is one for an identity
/// that was never attached.
pub open spec fn register_t(m: HubModel, id: Seq<u8>, name: Seq<u8>) -> HubModel {
    if !m.has_peer(id) || m.peer(id).registered {
        m
    } else {
        let i = m.peer_index(id);
        let named = m.peers.update(
            i,
            PeerModel { display_name: name, registered: true, ..m.peers[i] },
        );
        let list = roster_of(named);
        let with_reg = named.update(
            i,
            enqueue_one(named[i], ServerEnvelopeModel::Registered { user_id: id }),
        );
        let with_list = with_reg.update(
            i,
            enqueue_one(with_reg[i], ServerEnvelopeModel::UserList { users: list }),
        );
        HubModel {
            peers: broadcast_t(
                with_list,
                id,
                ServerEnvelopeModel::UserJoined { user_id: id, display_name: name },
            ),
        }
    }
}

/// Discover: enqueue the current roster to a registered caller; an attached
/// but unregistered caller is answered with a "Not registered" error; an
/// unknown identity leaves the hub unchanged.
pub open spec fn discover_t(m: HubModel, id: Seq<u8>) -> HubModel {
    if !m.has_peer(id) {
        m
    } else {
        let i = m.peer_index(id);
        if m.peers[i].registered {
            HubModel {
                peers: m.peers.update(
                    i,
                    enqueue_one(
                        m.peers[i],
                        ServerEnvelopeModel::UserList { users: roster_of(m.peers) },
                    ),
                ),
            }
        } else {
            HubModel {
                peers: m.peers.update(
                    i,
                    enqueue_one(
                        m.peers[i],
                        ServerEnvelopeModel::Error { message: not_registered_message() },
                    ),
                ),
            }
        }
    }
}

/// Route: deliver a directed envelope from a registered caller to a
/// registered target, carrying the payload verbatim; a missing target is
/// answered to the caller with a "Target user not found" error; an
/// unregistered caller is answered with "Not registered".
pub open spec fn route_t(
    m: HubModel,
    from: Seq<u8>,
    kind: RouteKind,
    target: Seq<u8>,
    payload: Seq<u8>,
) -> HubModel {
    if !m.has_peer(from) {
        m
    } else {
        let fi = m.peer_index(from);
        if !m.peers[fi].registered {
            HubModel {
                peers: m.peers.update(
                    fi,
                    enqueue_one(
                        m.peers[fi],
                        ServerEnvelopeModel::Error { message: not_registered_message() },
                    ),
                ),
            }
        } else if m.has_peer(target) && m.peer(target).registered {
            let ti = m.peer_index(target);
            HubModel {
                peers: m.peers.update(
                    ti,
                    enqueue_one(
                        m.peers[ti],
                        ServerEnvelopeModel::Routed { kind, from_user_id: from, payload },
                    ),
                ),
            }
        } else {
            HubModel {
                peers: m.peers.update(
                    fi,
                    enqueue_one(
                        m.peers[fi],
                        ServerEnvelopeModel::Error { message: target_not_found_message() },
                    ),
                ),
            }
        }
    }
}

/// Detach: remove the slot (idempotent); if the peer was registered,
/// enqueue `user_left` to every remaining registered peer.
pub open spec fn detach_t(m: HubModel, id: Seq<u8>) -> HubModel {
    if !m.has_peer(id) {
        m
    } else {
        let i = m.peer_index(id);
        let was_registered = m.peers[i].registered;
        let remaining = m.peers.remove(i);
        if was_registered {
            HubModel {
                peers: broadcast_t(remaining, id, ServerEnvelopeModel::UserLeft { user_id: id }),
            }
        } else {
            HubModel { peers: remaining }
        }
    }
}

/// Reject: answer a protocol error (a frame that could not be decoded)
/// into the offending peer's own outbox; no other peer is touched.
pub open spec fn reject_t(m: HubModel, id: Seq<u8>, msg: Seq<u8>) -> HubModel {
    if !m.has_peer(id) {
        m
    } else {
        let i = m.peer_index(id);
        HubModel {
            peers: m.peers.update(
                i,
                enqueue_one(m.peers[i], ServerEnvelopeModel::Error { message: msg }),
            ),
        }
    }
}

/// Pop: take the oldest pending envelope out of a peer's outbox.
pub open spec fn pop_t(m: HubModel, id: Seq<u8>) -> HubModel {
    if m.has_peer(id) && m.peer(id).outbox.len() > 0 {
        let i = m.peer_index(id);
        HubModel {
            peers: m.peers.update(
                i,
                PeerModel { outbox: m.peers[i].outbox.drop_first(), ..m.peers[i] },
            ),
        }
    } else {
        m
    }
}

/// One peer's slot: identity, display name, registration state, the bounded
/// outbox of envelopes not yet taken by the transport, and the count of
/// envelopes dropped on overflow.
pub struct PeerRecord {
    pub user_id: Vec<u8>,
    pub display_name: Vec<u8>,
    pub registered: bool,
    pub outbox: Vec<ServerEnvelope>,
    pub dropped: u64,
}

impl View for PeerRecord {
    type V = PeerModel;

    open spec fn view(&self) -> PeerModel {
        PeerModel {
            user_id: self.user_id@,
            display_name: self.display_name@,
            registered: self.registered,
            outbox: self.outbox@.map_values(|e: ServerEnvelope| e@),
            dropped: self.dropped as nat,
        }
    }
}

/// The signaling hub.
pub struct Hub {
    peers: Vec<PeerRecord>,
}

impl View for Hub {
    type V = HubModel;

    closed spec fn view(&self) -> HubModel {
        HubModel { peers: self.peers@.map_values(|p: PeerRecord| p@) }
    }
}

/// The "Not registered" error envelope.
fn not_registered_envelope() -> (e: ServerEnvelope)
    ensures
        e@ == (ServerEnvelopeModel::Error { message: not_registered_message() }),
{
    ServerEnvelope::Error { message: slice_to_vec("Not registered".as_bytes()) }
}

/// The "Target user not found" error envelope.
fn target_not_found_envelope() -> (e: ServerEnvelope)
    ensures
        e@ == (ServerEnvelopeModel::Error { message: target_not_found_message() }),
{
    ServerEnvelope::Error { message: slice_to_vec("Target user not found".as_bytes()) }
}

fn sat_inc_exec(d: u64) -> (r: u64)
    ensures
        r as nat == sat_inc(d as nat),
{
    if d < u64::MAX {
        d + 1
    } else {
        d
    }
}

impl Hub {
    /// An empty hub.
    pub fn new() -> (r: Hub)
        ensures
            r@ == (HubModel { peers: Seq::<PeerModel>::empty() }),
            r@.wf(),
    {
        let r = Hub { peers: Vec::new() };
        proof {
            assert(r@ =~~= (HubModel { peers: Seq::<PeerModel>::empty() }));
        }
        r
    }

    /// Index of the slot carrying `id`, if any.
    fn find_index(&self, id: &[u8]) -> (r: Option<usize>)
        requires
            self@.wf(),
        ensures
            match r {
                Some(i) => i < self@.peers.len() && self@.peers[i as int].user_id == id@
                    && self@.has_peer(id@) && self@.peer_index(id@) == i as int,
                None => !self@.has_peer(id@),
            },
    {
        let mut i: usize = 0;
        while i < self.peers.len()
            invariant
                self@.wf(),
                i <= self.peers.len(),
                self@.peers.len() == self.peers.len(),
                forall|j: int| 0 <= j < i ==> self@.peers[j].user_id != id@,
            decreases self.peers.len() - i,
        {
            if bytes_eq(self.peers[i].user_id.as_slice(), id) {
                proof {
                    assert(self@.peers[i as int].user_id == id@);
                    let k = self@.peer_index(id@);
                    assert(0 <= k < self@.peers.len() && self@.peers[k].user_id == id@);
                    assert(k == i as int);
                }
                return Some(i);
            }
            i = i + 1;
        }
        proof {
            assert forall|j: int| 0 <= j < self@.peers.len() implies self@.peers[j].user_id
                != id@ by {}
        }
        None
    }

    /// Enqueue `e` into the outbox of the slot at `i`.
    fn enqueue_at(&mut self, i: usize, e: ServerEnvelope)
        requires
            i < old(self)@.peers.len(),
        ensures
            final(self)@.peers == old(self)@.peers.update(
                i as int,
                enqueue_one(old(self)@.peers[i as int], e@),
            ),
    {
        let mut rec = self.peers.remove(i);
        if rec.outbox.len() < OUTBOX_CAPACITY {
            rec.outbox.push(e);
        } else {
            rec.dropped = sat_inc_exec(rec.dropped);
        }
        self.peers.insert(i, rec);
        proof {
            assert(final(self)@.peers =~~= old(self)@.peers.update(
                i as int,
                enqueue_one(old(self)@.peers[i as int], e@),
            ));
        }
    }

    /// Attach a fresh identity as an unregistered slot. Returns whether the
    /// identity was fresh; an identity already present changes nothing.
    pub fn attach(&mut self, user_id: Vec<u8>) -> (added: bool)
        requires
            old(self)@.wf(),
        ensures
            final(self)@ == attach_t(old(self)@, user_id@),
            final(self)@.wf(),
            added == !old(self)@.has_peer(user_id@),
    {
        match self.find_index(user_id.as_slice()) {
            Some(_) => {
                proof {
                    assert(final(self)@ =~~= attach_t(old(self)@, user_id@));
                }
                false
            },
            None => {
                let ghost pre = self@;
                self.peers.push(
                    PeerRecord {
                        user_id,
                        display_name: Vec::new(),
                        registered: false,
                        outbox: Vec::new(),
                        dropped: 0,
                    },
                );
                proof {
                    assert(final(self)@ =~~= attach_t(pre, user_id@));
                    assert(final(self)@.wf());
                }
                true
            },
        }
    }

    /// The roster as an executable value: the registered peers in order.
    fn roster_vec(&self) -> (r: Vec<UserInfo>)
        ensures
            r@.map_values(|u: UserInfo| u@) == roster_of(self@.peers),
    {
        let mut r: Vec<UserInfo> = Vec::new();
        let mut i: usize = 0;
        while i < self.peers.len()
            invariant
                i <= self.peers.len(),
                self@.peers.len() == self.peers.len(),
                r@.map_values(|u: UserInfo| u@) == roster_of(self@.peers.take(i as int)),
            decreases self.peers.len() - i,
        {
            if self.peers[i].registered {
                r.push(
                    UserInfo {
                        user_id: copy_bytes(&self.peers[i].user_id),
                        display_name: copy_bytes(&self.peers[i].display_name),
                    },
                );
            }
            i = i + 1;
            proof {
                let taken = self@.peers.take(i as int);
                assert(taken.drop_last() =~= self@.peers.take(i as int - 1));
                assert(taken.last() == self@.peers[i as int - 1]);
                assert(r@.map_values(|u: UserInfo| u@) =~= roster_of(taken));
            }
        }
        proof {
            assert(self@.peers.take(self@.peers.len() as int) =~= self@.peers);
        }
        r
    }

    /// Enqueue a copy of `e` to every registered peer whose identity is not
    /// `exclude`.
    fn broadcast_except(&mut self, exclude: &[u8], e: &ServerEnvelope)
        ensures
            final(self)@.peers == broadcast_t(old(self)@.peers, exclude@, e@),
    {
        let ghost pre = old(self)@.peers;
        let mut i: usize = 0;
        while i < self.peers.len()
            invariant
                i <= self.peers.len(),
                self.peers.len() == pre.len(),
                self@.peers.len() == pre.len(),
                forall|j: int|
                    0 <= j < i ==> self@.peers[j] == (if pre[j].registered && pre[j].user_id
                        != exclude@ {
                        enqueue_one(pre[j], e@)
                    } else {
                        pre[j]
                    }),
                forall|j: int| i <= j < pre.len() ==> self@.peers[j] == pre[j],
            decreases self.peers.len() - i,
        {
            let ghost before = self@.peers;
            if self.peers[i].registered && !bytes_eq(self.peers[i].user_id.as_slice(), exclude) {
                self.enqueue_at(i, e.duplicate());
                proof {
                    assert(self@.peers == before.update(
                        i as int,
                        enqueue_one(before[i as int], e@),
                    ));
                    assert(self@.peers.len() == pre.len());
                }
            }
            i = i + 1;
        }
        proof {
            assert(final(self)@.peers =~~= broadcast_t(pre, exclude@, e@));
        }
    }

    /// Register an attached peer under `display_name`: enqueue `registered`
    /// and the roster snapshot (including the caller) to the caller, then
    /// `user_joined` to every other registered peer. Returns whether the
    /// registration took effect; a second register for the same identity,
    /// or one for an identity never attached, is ignored.
    pub fn register(&mut self, user_id: &[u8], display_name: Vec<u8>) -> (ok: bool)
        requires
            old(self)@.wf(),
        ensures
            final(self)@ == register_t(old(self)@, user_id@, display_name@),
            final(self)@.wf(),
            ok == (old(self)@.has_peer(user_id@) && !old(self)@.peer(user_id@).registered),
    {
        let idx = match self.find_index(user_id) {
            None => {
                proof {
                    assert(final(self)@ =~~= register_t(old(self)@, user_id@, display_name@));
                }
                return false;
            },
            Some(i) => i,
        };
        if self.peers[idx].registered {
            proof {
                assert(final(self)@ =~~= register_t(old(self)@, user_id@, display_name@));
            }
            return false;
        }
        let name_for_join = copy_bytes(&display_name);
        let mut rec = self.peers.remove(idx);
        rec.registered = true;
        rec.display_name = display_name;
        self.peers.insert(idx, rec);
        let ghost named = old(self)@.peers.update(
            idx as int,
            PeerModel {
                display_name: display_name@,
                registered: true,
                ..old(self)@.peers[idx as int]
            },
        );
        proof {
            assert(self@.peers =~~= named);
        }
        let list = self.roster_vec();
        self.enqueue_at(idx, ServerEnvelope::Registered { user_id: slice_to_vec(user_id) });
        self.enqueue_at(idx, ServerEnvelope::UserList { users: list });
        let joined = ServerEnvelope::UserJoined {
            user_id: slice_to_vec(user_id),
            display_name: name_for_join,
        };
        self.broadcast_except(user_id, &joined);
        proof {
            assert(final(self)@ =~~= register_t(old(self)@, user_id@, display_name@));
            assert forall|i: int, j: int|
                0 <= i < final(self)@.peers.len() && 0 <= j < final(self)@.peers.len() && i
                    != j implies final(self)@.peers[i].user_id
                != final(self)@.peers[j].user_id by {
                assert(final(self)@.peers[i].user_id == old(self)@.peers[i].user_id);
                assert(final(self)@.peers[j].user_id == old(self)@.peers[j].user_id);
            }
        }
        true
    }

    /// Answer a `discover` from the peer `user_id`: the roster to a
    /// registered caller, a "Not registered" error to an attached one.
    pub fn discover(&mut self, user_id: &[u8])
        requires
            old(self)@.wf(),
        ensures
            final(self)@ == discover_t(old(self)@, user_id@),
            final(self)@.wf(),
    {
        let idx = match self.find_index(user_id) {
            None => {
                proof {
                    assert(final(self)@ =~~= discover_t(old(self)@, user_id@));
                }
                return ;
            },
            Some(i) => i,
        };
        if self.peers[idx].registered {
            let list = self.roster_vec();
            self.enqueue_at(idx, ServerEnvelope::UserList { users: list });
        } else {
            self.enqueue_at(idx, not_registered_envelope());
        }
        proof {
            assert(final(self)@ =~~= discover_t(old(self)@, user_id@));
            assert forall|i: int, j: int|
                0 <= i < final(self)@.peers.len() && 0 <= j < final(self)@.peers.len() && i
                    != j implies final(self)@.peers[i].user_id
                != final(self)@.peers[j].user_id by {
                assert(final(self)@.peers[i].user_id == old(self)@.peers[i].user_id);
                assert(final(self)@.peers[j].user_id == old(self)@.peers[j].user_id);
            }
        }
    }

    /// Route a directed envelope from `from` to `target`, carrying the
    /// payload verbatim; errors are answered into the caller's own outbox.
    pub fn route(&mut self, from: &[u8], kind: RouteKind, target: &[u8], payload: Vec<u8>)
        requires
            old(self)@.wf(),
        ensures
            final(self)@ == route_t(old(self)@, from@, kind, target@, payload@),
            final(self)@.wf(),
    {
        let fi = match self.find_index(from) {
            None => {
                proof {
                    assert(final(self)@ =~~= route_t(old(self)@, from@, kind, target@, payload@));
                }
                return ;
            },
            Some(i) => i,
        };
        if !self.peers[fi].registered {
            self.enqueue_at(fi, not_registered_envelope());
        } else {
            let target_found = match self.find_index(target) {
                Some(ti) => {
                    if self.peers[ti].registered {
                        Some(ti)
                    } else {
                        None
                    }
                },
                None => None,
            };
            match target_found {
                Some(ti) => {
                    self.enqueue_at(
                        ti,
                        ServerEnvelope::Routed {
                            kind,
                            from_user_id: slice_to_vec(from),
                            payload,
                        },
                    );
                },
                None => {
                    self.enqueue_at(fi, target_not_found_envelope());
                },
            }
        }
        proof {
            assert(final(self)@ =~~= route_t(old(self)@, from@, kind, target@, payload@));
            assert forall|i: int, j: int|
                0 <= i < final(self)@.peers.len() && 0 <= j < final(self)@.peers.len() && i
                    != j implies final(self)@.peers[i].user_id
                != final(self)@.peers[j].user_id by {
                assert(final(self)@.peers[i].user_id == old(self)@.peers[i].user_id);
                assert(final(self)@.peers[j].user_id == old(self)@.peers[j].user_id);
            }
        }
    }

    /// Detach `user_id` (idempotent): drop the slot and, if it was
    /// registered, enqueue `user_left` to every remaining registered peer.
    pub fn detach(&mut self, user_id: &[u8])
        requires
            old(self)@.wf(),
        ensures
            final(self)@ == detach_t(old(self)@, user_id@),
            final(self)@.wf(),
    {
        let idx = match self.find_index(user_id) {
            None => {
                proof {
                    assert(final(self)@ =~~= detach_t(old(self)@, user_id@));
                }
                return ;
            },
            Some(i) => i,
        };
        let rec = self.peers.remove(idx);
        let ghost remaining = old(self)@.peers.remove(idx as int);
        proof {
            assert(self@.peers =~~= remaining);
        }
        if rec.registered {
            let left = ServerEnvelope::UserLeft { user_id: slice_to_vec(user_id) };
            self.broadcast_except(user_id, &left);
        }
        proof {
            assert(final(self)@ =~~= detach_t(old(self)@, user_id@));
            assert forall|i: int, j: int|
                0 <= i < final(self)@.peers.len() && 0 <= j < final(self)@.peers.len() && i
                    != j implies final(self)@.peers[i].user_id
                != final(self)@.peers[j].user_id by {}
        }
    }

    /// The number of envelopes dropped on overflow of `user_id`'s outbox
    /// since it was attached; zero for an unknown identity.
    pub fn dropped_count(&self, user_id: &[u8]) -> (r: u64)
        requires
            self@.wf(),
        ensures
            r as nat == if self@.has_peer(user_id@) {
                self@.peer(user_id@).dropped
            } else {
                0
            },
    {
        match self.find_index(user_id) {
            Some(i) => self.peers[i].dropped,
            None => 0,
        }
    }

    /// Answer a protocol error into `user_id`'s own outbox.
    pub fn reject(&mut self, user_id: &[u8], message: Vec<u8>)
        requires
            old(self)@.wf(),
        ensures
            final(self)@ == reject_t(old(self)@, user_id@, message@),
            final(self)@.wf(),
    {
        let idx = match self.find_index(user_id) {
            None => {
                proof {
                    assert(final(self)@ =~~= reject_t(old(self)@, user_id@, message@));
                }
                return ;
            },
            Some(i) => i,
        };
        self.enqueue_at(idx, ServerEnvelope::Error { message });
        proof {
            assert(final(self)@ =~~= reject_t(old(self)@, user_id@, message@));
            assert forall|i: int, j: int|
                0 <= i < final(self)@.peers.len() && 0 <= j < final(self)@.peers.len() && i
                    != j implies final(self)@.peers[i].user_id
                != final(self)@.peers[j].user_id by {
                assert(final(self)@.peers[i].user_id == old(self)@.peers[i].user_id);
                assert(final(self)@.peers[j].user_id == old(self)@.peers[j].user_id);
            }
        }
    }

    /// Take the oldest pending envelope for `user_id`, if any.
    pub fn pop_outbox(&mut self, user_id: &[u8]) -> (r: Option<ServerEnvelope>)
        requires
            old(self)@.wf(),
        ensures
            final(self)@ == pop_t(old(self)@, user_id@),
            final(self)@.wf(),
            match r {
                Some(e) => old(self)@.has_peer(user_id@) && old(self)@.peer(
                    user_id@,
                ).outbox.len() > 0 && e@ == old(self)@.peer(user_id@).outbox[0],
                None => !(old(self)@.has_peer(user_id@) && old(self)@.peer(
                    user_id@,
                ).outbox.len() > 0),
            },
    {
        match self.find_index(user_id) {
            None => {
                proof {
                    assert(final(self)@ =~~= pop_t(old(self)@, user_id@));
                }
                None
            },
            Some(i) => {
                if self.peers[i].outbox.len() == 0 {
                    proof {
                        assert(final(self)@ =~~= pop_t(old(self)@, user_id@));
                    }
                    None
                } else {
                    let mut rec = self.peers.remove(i);
                    let e = rec.outbox.remove(0);
                    self.peers.insert(i, rec);
                    proof {
                        assert(rec@.outbox =~~= old(self)@.peers[i as int].outbox.drop_first());
                        assert(final(self)@ =~~= pop_t(old(self)@, user_id@));
                        assert(final(self)@.wf());
                        assert(e@ == old(self)@.peer(user_id@).outbox[0]);
                    }
                    Some(e)
                }
            },
        }
    }
}

} // verus!
