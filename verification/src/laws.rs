//! Hub-wide laws, proved once over the model transitions of [`crate::hub`].
//!
//! Each proof function states a property of the hub that holds for every
//! input its `requires` admits; the executable operations are tied to the
//! same transitions by their own contracts.

use vstd::prelude::*;

use crate::envelope::{RouteKind, ServerEnvelopeModel};
use crate::hub::{
    attach_t, detach_t, discover_t, enqueue_one, pop_t, register_t, route_t, HubModel,
    OUTBOX_CAPACITY,
};

verus! {

/// One hub operation, for laws quantified over arbitrary operations.
pub enum HubOp {
    Attach { id: Seq<u8> },
    Register { id: Seq<u8>, name: Seq<u8> },
    Discover { id: Seq<u8> },
    Route { from: Seq<u8>, kind: RouteKind, target: Seq<u8>, payload: Seq<u8> },
    Detach { id: Seq<u8> },
    Pop { id: Seq<u8> },
}

/// The transition denoted by one operation.
pub open spec fn apply_op(m: HubModel, op: HubOp) -> HubModel {
    match op {
        HubOp::Attach { id } => attach_t(m, id),
        HubOp::Register { id, name } => register_t(m, id, name),
        HubOp::Discover { id } => discover_t(m, id),
        HubOp::Route { from, kind, target, payload } => route_t(m, from, kind, target, payload),
        HubOp::Detach { id } => detach_t(m, id),
        HubOp::Pop { id } => pop_t(m, id),
    }
}

/// Every operation preserves well-formedness of the hub.
pub proof fn lemma_ops_preserve_wf(m: HubModel, op: HubOp)
    requires
        m.wf(),
    ensures
        apply_op(m, op).wf(),
{
    match op {
        HubOp::Detach { id } => {
            let m2 = apply_op(m, op);
            assert forall|i: int, j: int|
                0 <= i < m2.peers.len() && 0 <= j < m2.peers.len() && i != j implies m2.peers[i].user_id
                != m2.peers[j].user_id by {
                if m.has_peer(id) {
                    let r = m.peer_index(id);
                    let oi = if i < r {
                        i
                    } else {
                        i + 1
                    };
                    let oj = if j < r {
                        j
                    } else {
                        j + 1
                    };
                    assert(m2.peers[i].user_id == m.peers[oi].user_id);
                    assert(m2.peers[j].user_id == m.peers[oj].user_id);
                }
            }
        },
        _ => {},
    }
}

/// Bijection: each operation changes the set of registered identities
/// exactly as the per-peer lifecycle dictates. A register that succeeds
/// adds precisely the registering identity; a detach of a registered peer
/// removes precisely that identity; every other operation leaves the
/// registry untouched. By induction over a run, the registry therefore
/// holds exactly the identities registered and not yet detached.
pub proof fn lemma_registry_bijection(m: HubModel, op: HubOp)
    requires
        m.wf(),
    ensures
        apply_op(m, op).registered_ids() == match op {
            HubOp::Register { id, name } => if m.has_peer(id) && !m.peer(id).registered {
                m.registered_ids().insert(id)
            } else {
                m.registered_ids()
            },
            HubOp::Detach { id } => if m.has_peer(id) && m.peer(id).registered {
                m.registered_ids().remove(id)
            } else {
                m.registered_ids()
            },
            _ => m.registered_ids(),
        },
{
    let m2 = apply_op(m, op);
    match op {
        HubOp::Attach { id } => {
            if m.has_peer(id) {
                assert(m2.registered_ids() =~= m.registered_ids());
            } else {
                assert(m2.wf());
                assert forall|x: Seq<u8>| #[trigger] m2.registered_ids().contains(x)
                    <==> m.registered_ids().contains(x) by {
                    if m2.registered_ids().contains(x) {
                        let k = m2.peer_index(x);
                        assert(k < m.peers.len());
                        lemma_witness_membership(m, k);
                    }
                    if m.registered_ids().contains(x) {
                        let k = m.peer_index(x);
                        assert(m2.peers[k].user_id == x && m2.peers[k].registered);
                        lemma_witness_membership(m2, k);
                    }
                }
                assert(m2.registered_ids() =~= m.registered_ids());
            }
        },
        HubOp::Register { id, name } => {
            if m.has_peer(id) && !m.peer(id).registered {
                let i = m.peer_index(id);
                assert forall|x: Seq<u8>| #[trigger] m2.registered_ids().contains(x) implies
                    m.registered_ids().insert(id).contains(x) by {
                    let k = m2.peer_index(x);
                    assert(m2.peers[k].user_id == m.peers[k].user_id);
                    if k != i {
                        assert(m.peers[k].registered);
                        assert(m.registered_ids().contains(x));
                    }
                }
                assert forall|x: Seq<u8>| m.registered_ids().insert(id).contains(x) implies
                    #[trigger] m2.registered_ids().contains(x) by {
                    if x == id {
                        assert(m2.peers[i].user_id == id && m2.peers[i].registered);
                        lemma_witness_membership(m2, i);
                    } else {
                        let k = m.peer_index(x);
                        assert(m2.peers[k].user_id == x && m2.peers[k].registered);
                        lemma_witness_membership(m2, k);
                    }
                }
                assert(m2.registered_ids() =~= m.registered_ids().insert(id));
            } else {
                assert(m2 == m);
            }
        },
        HubOp::Discover { id } => {
            assert forall|x: Seq<u8>| #[trigger] m2.registered_ids().contains(x)
                <==> m.registered_ids().contains(x) by {
                lemma_same_ids_same_membership(m, m2, x);
            }
            assert(m2.registered_ids() =~= m.registered_ids());
        },
        HubOp::Route { from, kind, target, payload } => {
            assert forall|x: Seq<u8>| #[trigger] m2.registered_ids().contains(x)
                <==> m.registered_ids().contains(x) by {
                lemma_same_ids_same_membership(m, m2, x);
            }
            assert(m2.registered_ids() =~= m.registered_ids());
        },
        HubOp::Detach { id } => {
            if m.has_peer(id) {
                let r = m.peer_index(id);
                if m.peers[r].registered {
                    assert forall|x: Seq<u8>| #[trigger] m2.registered_ids().contains(x) implies
                        m.registered_ids().remove(id).contains(x) by {
                        let k = m2.peer_index(x);
                        let ok = if k < r {
                            k
                        } else {
                            k + 1
                        };
                        assert(m2.peers[k].user_id == m.peers[ok].user_id);
                        assert(m2.peers[k].registered == m.peers[ok].registered);
                        lemma_witness_membership_of(m, ok);
                        assert(x != id);
                    }
                    assert forall|x: Seq<u8>| m.registered_ids().remove(id).contains(x) implies
                        #[trigger] m2.registered_ids().contains(x) by {
                        let ok = m.peer_index(x);
                        assert(ok != r);
                        let k = if ok < r {
                            ok
                        } else {
                            ok - 1
                        };
                        assert(m2.peers[k].user_id == x);
                        assert(m2.peers[k].registered);
                        lemma_witness_membership(m2, k);
                    }
                    assert(m2.registered_ids() =~= m.registered_ids().remove(id));
                } else {
                    assert forall|x: Seq<u8>| #[trigger] m2.registered_ids().contains(x) implies
                        m.registered_ids().contains(x) by {
                        let k = m2.peer_index(x);
                        let ok = if k < r {
                            k
                        } else {
                            k + 1
                        };
                        assert(m2.peers[k].user_id == m.peers[ok].user_id);
                        assert(m2.peers[k].registered == m.peers[ok].registered);
                        lemma_witness_membership_of(m, ok);
                    }
                    assert forall|x: Seq<u8>| m.registered_ids().contains(x) implies #[trigger]
                        m2.registered_ids().contains(x) by {
                        let ok = m.peer_index(x);
                        assert(ok != r);
                        let k = if ok < r {
                            ok
                        } else {
                            ok - 1
                        };
                        assert(m2.peers[k].user_id == x);
                        assert(m2.peers[k].registered);
                        lemma_witness_membership(m2, k);
                    }
                    assert(m2.registered_ids() =~= m.registered_ids());
                }
            } else {
                assert(m2 == m);
            }
        },
        HubOp::Pop { id } => {
            assert forall|x: Seq<u8>| #[trigger] m2.registered_ids().contains(x)
                <==> m.registered_ids().contains(x) by {
                lemma_same_ids_same_membership(m, m2, x);
            }
            assert(m2.registered_ids() =~= m.registered_ids());
        },
    }
}

/// The state after a whole run of operations.
pub open spec fn apply_ops(m: HubModel, ops: Seq<HubOp>) -> HubModel
    decreases ops.len(),
{
    if ops.len() == 0 {
        m
    } else {
        apply_ops(apply_op(m, ops[0]), ops.drop_first())
    }
}

/// A whole run preserves well-formedness: every reachable hub state is
/// well-formed.
pub proof fn lemma_run_preserves_wf(m: HubModel, ops: Seq<HubOp>)
    requires
        m.wf(),
    ensures
        apply_ops(m, ops).wf(),
    decreases ops.len(),
{
    if ops.len() > 0 {
        lemma_ops_preserve_wf(m, ops[0]);
        lemma_run_preserves_wf(apply_op(m, ops[0]), ops.drop_first());
    }
}

/// The pure set operation one hub operation performs on the registry:
/// a register that succeeds inserts its identity, a detach of a
/// registered peer removes it, everything else changes nothing.
pub open spec fn registry_change(m: HubModel, op: HubOp, acc: Set<Seq<u8>>) -> Set<Seq<u8>> {
    match op {
        HubOp::Register { id, name } => if m.has_peer(id) && !m.peer(id).registered {
            acc.insert(id)
        } else {
            acc
        },
        HubOp::Detach { id } => if m.has_peer(id) && m.peer(id).registered {
            acc.remove(id)
        } else {
            acc
        },
        _ => acc,
    }
}

/// The fold of those set operations along a run.
pub open spec fn registry_fold(m: HubModel, ops: Seq<HubOp>, acc: Set<Seq<u8>>) -> Set<Seq<u8>>
    decreases ops.len(),
{
    if ops.len() == 0 {
        acc
    } else {
        registry_fold(apply_op(m, ops[0]), ops.drop_first(), registry_change(m, ops[0], acc))
    }
}

/// Bijection over a whole run: at any quiescent point, the registry holds
/// exactly the identities whose registration succeeded and that were not
/// detached since — the hub's registry and the pure insert/remove fold
/// never diverge.
pub proof fn lemma_registry_bijection_run(m: HubModel, ops: Seq<HubOp>)
    requires
        m.wf(),
    ensures
        apply_ops(m, ops).registered_ids() == registry_fold(m, ops, m.registered_ids()),
    decreases ops.len(),
{
    if ops.len() > 0 {
        lemma_registry_bijection(m, ops[0]);
        lemma_ops_preserve_wf(m, ops[0]);
        lemma_registry_bijection_run(apply_op(m, ops[0]), ops.drop_first());
    }
}

/// Helper: an index whose slot is registered witnesses membership in the
/// registry (stated for a well-formed hub).
proof fn lemma_witness_membership(m: HubModel, i: int)
    requires
        m.wf(),
        0 <= i < m.peers.len(),
        m.peers[i].registered,
    ensures
        m.registered_ids().contains(m.peers[i].user_id),
        m.peer_index(m.peers[i].user_id) == i,
{
    let x = m.peers[i].user_id;
    assert(m.has_peer(x));
    let k = m.peer_index(x);
    assert(0 <= k < m.peers.len() && m.peers[k].user_id == x);
    assert(k == i);
}

/// Helper: membership of the identity at an index, in either direction.
proof fn lemma_witness_membership_of(m: HubModel, i: int)
    requires
        m.wf(),
        0 <= i < m.peers.len(),
    ensures
        m.registered_ids().contains(m.peers[i].user_id) == m.peers[i].registered,
        m.peer_index(m.peers[i].user_id) == i,
{
    let x = m.peers[i].user_id;
    assert(m.has_peer(x));
    let k = m.peer_index(x);
    assert(0 <= k < m.peers.len() && m.peers[k].user_id == x);
    assert(k == i);
}

/// Helper: two well-formed hubs whose slots carry the same identities and
/// registration flags have the same registry membership for `x`.
proof fn lemma_same_ids_same_membership(m: HubModel, m2: HubModel, x: Seq<u8>)
    requires
        m.wf(),
        m2.wf(),
        m.peers.len() == m2.peers.len(),
        forall|i: int|
            0 <= i < m.peers.len() ==> m2.peers[i].user_id == m.peers[i].user_id
                && m2.peers[i].registered == m.peers[i].registered,
    ensures
        m2.registered_ids().contains(x) == m.registered_ids().contains(x),
{
    if m.registered_ids().contains(x) {
        let i = m.peer_index(x);
        lemma_witness_membership(m2, i);
    }
    if m2.registered_ids().contains(x) {
        let i = m2.peer_index(x);
        lemma_witness_membership(m, i);
    }
}

/// Notification completeness, join direction: when a register succeeds,
/// every other registered peer with room in its outbox is enqueued exactly
/// one matching `user_joined`, appended after everything already pending;
/// a peer whose outbox is saturated only has its overflow counter
/// incremented.
pub proof fn lemma_register_notifies_others(m: HubModel, id: Seq<u8>, name: Seq<u8>)
    requires
        m.wf(),
        m.has_peer(id),
        !m.peer(id).registered,
    ensures
        forall|j: int|
            0 <= j < m.peers.len() && m.peers[j].user_id != id && m.peers[j].registered
                ==> #[trigger] register_t(m, id, name).peers[j] == enqueue_one(
                m.peers[j],
                ServerEnvelopeModel::UserJoined { user_id: id, display_name: name },
            ),
        forall|j: int|
            0 <= j < m.peers.len() && m.peers[j].user_id != id && !m.peers[j].registered
                ==> #[trigger] register_t(m, id, name).peers[j] == m.peers[j],
{
    let i = m.peer_index(id);
}

/// Notification completeness, leave direction: when a registered peer is
/// detached, every remaining registered peer with room is enqueued exactly
/// one matching `user_left`; unregistered slots are untouched.
pub proof fn lemma_detach_notifies_others(m: HubModel, id: Seq<u8>)
    requires
        m.wf(),
        m.has_peer(id),
        m.peer(id).registered,
    ensures
        forall|j: int|
            0 <= j < m.peers.remove(m.peer_index(id)).len() ==> #[trigger] detach_t(
                m,
                id,
            ).peers[j] == (if m.peers.remove(m.peer_index(id))[j].registered {
                enqueue_one(
                    m.peers.remove(m.peer_index(id))[j],
                    ServerEnvelopeModel::UserLeft { user_id: id },
                )
            } else {
                m.peers.remove(m.peer_index(id))[j]
            }),
{
    let i = m.peer_index(id);
    let remaining = m.peers.remove(i);
    assert forall|j: int| 0 <= j < remaining.len() implies #[trigger] detach_t(m, id).peers[j]
        == (if remaining[j].registered {
        enqueue_one(remaining[j], ServerEnvelopeModel::UserLeft { user_id: id })
    } else {
        remaining[j]
    }) by {
        let oj = if j < i {
            j
        } else {
            j + 1
        };
        assert(remaining[j] == m.peers[oj]);
        assert(remaining[j].user_id != id);
    }
}

/// No self-notification: no operation ever appends a `user_joined` or
/// `user_left` carrying a peer's own identity to that peer's outbox.
pub proof fn lemma_no_self_notification(m: HubModel, op: HubOp)
    requires
        m.wf(),
    ensures
        forall|j: int, k: int|
            0 <= j < apply_op(m, op).peers.len() && 0 <= k < apply_op(m, op).peers[j].outbox.len()
                && !(exists|j0: int|
                {
                    &&& 0 <= j0 < m.peers.len()
                    &&& m.peers[j0].user_id == apply_op(m, op).peers[j].user_id
                    &&& k < m.peers[j0].outbox.len()
                }) ==> !(#[trigger] apply_op(m, op).peers[j].outbox[k] matches
                ServerEnvelopeModel::UserJoined { user_id: u, .. } && u == apply_op(
                m,
                op,
            ).peers[j].user_id) && !(apply_op(m, op).peers[j].outbox[k] matches
                ServerEnvelopeModel::UserLeft { user_id: u } && u == apply_op(
                m,
                op,
            ).peers[j].user_id),
{
    let m2 = apply_op(m, op);
    match op {
        HubOp::Attach { id } => {
            assert forall|j: int|
                0 <= j < m2.peers.len() && j < m.peers.len() implies m2.peers[j]
                == m.peers[j] by {}
        },
        HubOp::Register { id, name } => {
            if m.has_peer(id) && !m.peer(id).registered {
                let i = m.peer_index(id);
                assert forall|j: int, k: int|
                    #![trigger m2.peers[j].outbox[k]]
                    0 <= j < m2.peers.len() && 0 <= k < m2.peers[j].outbox.len() && !(exists|
                        j0: int,
                    |
                    {
                        &&& 0 <= j0 < m.peers.len()
                        &&& m.peers[j0].user_id == m2.peers[j].user_id
                        &&& k < m.peers[j0].outbox.len()
                    }) implies !(#[trigger] m2.peers[j].outbox[k] matches
                    ServerEnvelopeModel::UserJoined { user_id: u, .. } && u
                    == m2.peers[j].user_id) && !(m2.peers[j].outbox[k] matches
                    ServerEnvelopeModel::UserLeft { user_id: u } && u == m2.peers[j].user_id) by {
                    assert(m2.peers[j].user_id == m.peers[j].user_id);
                    assert(0 <= j < m.peers.len() && m.peers[j].user_id == m2.peers[j].user_id
                        && m.peers[j].outbox.len() <= m2.peers[j].outbox.len());
                    if j == i {
                        assert(m2.peers[j].outbox[k] matches ServerEnvelopeModel::Registered { .. }
                            || m2.peers[j].outbox[k] matches ServerEnvelopeModel::UserList { .. });
                    } else {
                        assert(m.peers[j].user_id != id);
                    }
                }
            }
        },
        HubOp::Discover { id } => {},
        HubOp::Route { from, kind, target, payload } => {},
        HubOp::Detach { id } => {
            if m.has_peer(id) {
                let i = m.peer_index(id);
                let remaining = m.peers.remove(i);
                assert forall|j: int, k: int|
                    #![trigger m2.peers[j].outbox[k]]
                    0 <= j < m2.peers.len() && 0 <= k < m2.peers[j].outbox.len() && !(exists|
                        j0: int,
                    |
                    {
                        &&& 0 <= j0 < m.peers.len()
                        &&& m.peers[j0].user_id == m2.peers[j].user_id
                        &&& k < m.peers[j0].outbox.len()
                    }) implies !(#[trigger] m2.peers[j].outbox[k] matches
                    ServerEnvelopeModel::UserJoined { user_id: u, .. } && u
                    == m2.peers[j].user_id) && !(m2.peers[j].outbox[k] matches
                    ServerEnvelopeModel::UserLeft { user_id: u } && u == m2.peers[j].user_id) by {
                    let oj = if j < i {
                        j
                    } else {
                        j + 1
                    };
                    assert(remaining[j] == m.peers[oj]);
                    assert(m2.peers[j].user_id == m.peers[oj].user_id);
                    assert(m.peers[oj].user_id != id);
                }
            }
        },
        HubOp::Pop { id } => {
            if m.has_peer(id) && m.peer(id).outbox.len() > 0 {
                let i = m.peer_index(id);
                assert forall|j: int, k: int|
                    #![trigger m2.peers[j].outbox[k]]
                    0 <= j < m2.peers.len() && 0 <= k < m2.peers[j].outbox.len() implies (exists|
                        j0: int,
                    |
                    {
                        &&& 0 <= j0 < m.peers.len()
                        &&& m.peers[j0].user_id == m2.peers[j].user_id
                        &&& k < m.peers[j0].outbox.len()
                    }) by {
                    assert(m.peers[j].user_id == m2.peers[j].user_id);
                    assert(k < m.peers[j].outbox.len());
                }
            }
        },
    }
}

/// Backpressure isolation, frame part: a route touches at most the slots
/// of the caller and of the target; every other peer's slot is unchanged.
pub proof fn lemma_route_frame(
    m: HubModel,
    from: Seq<u8>,
    kind: RouteKind,
    target: Seq<u8>,
    payload: Seq<u8>,
)
    requires
        m.wf(),
    ensures
        forall|j: int|
            0 <= j < m.peers.len() && m.peers[j].user_id != from && m.peers[j].user_id != target
                ==> #[trigger] route_t(m, from, kind, target, payload).peers[j] == m.peers[j],
{
    if m.has_peer(from) {
        let fi = m.peer_index(from);
        if m.peers[fi].registered && m.has_peer(target) && m.peer(target).registered {
            let ti = m.peer_index(target);
            assert forall|j: int|
                0 <= j < m.peers.len() && m.peers[j].user_id != from && m.peers[j].user_id
                    != target implies #[trigger] route_t(m, from, kind, target, payload).peers[j]
                == m.peers[j] by {
                assert(j != fi && j != ti);
            }
        } else {
            assert forall|j: int|
                0 <= j < m.peers.len() && m.peers[j].user_id != from && m.peers[j].user_id
                    != target implies #[trigger] route_t(m, from, kind, target, payload).peers[j]
                == m.peers[j] by {
                assert(j != fi);
            }
        }
    }
}

/// Backpressure isolation, independence part: the effect of a route on the
/// target and on the caller does not depend on any other peer's outbox or
/// overflow counter. In particular a third peer's saturated outbox cannot
/// delay or change a route between two others.
pub proof fn lemma_backpressure_isolation(
    m1: HubModel,
    m2: HubModel,
    from: Seq<u8>,
    kind: RouteKind,
    target: Seq<u8>,
    payload: Seq<u8>,
)
    requires
        m1.wf(),
        m2.wf(),
        m1.peers.len() == m2.peers.len(),
        forall|i: int|
            0 <= i < m1.peers.len() ==> m2.peers[i].user_id == m1.peers[i].user_id
                && m2.peers[i].registered == m1.peers[i].registered,
        forall|i: int|
            0 <= i < m1.peers.len() && (m1.peers[i].user_id == from || m1.peers[i].user_id
                == target) ==> m2.peers[i] == m1.peers[i],
    ensures
        forall|i: int|
            0 <= i < m1.peers.len() && (m1.peers[i].user_id == from || m1.peers[i].user_id
                == target) ==> #[trigger] route_t(m2, from, kind, target, payload).peers[i]
                == route_t(m1, from, kind, target, payload).peers[i],
{
    assert forall|x: Seq<u8>| #[trigger] m1.has_peer(x) <==> m2.has_peer(x) by {
        if m1.has_peer(x) {
            let i = m1.peer_index(x);
            assert(m2.peers[i].user_id == x);
        }
        if m2.has_peer(x) {
            let i = m2.peer_index(x);
            assert(m1.peers[i].user_id == x);
        }
    }
    if m1.has_peer(from) {
        let f1 = m1.peer_index(from);
        let f2 = m2.peer_index(from);
        assert(m1.peers[f2].user_id == from);
        assert(f1 == f2);
        if m1.has_peer(target) {
            let t1 = m1.peer_index(target);
            let t2 = m2.peer_index(target);
            assert(m1.peers[t2].user_id == target);
            assert(t1 == t2);
        }
    }
}

/// Outbox order: no operation reorders or rewrites what is already pending.
/// Every slot in the new state is either a freshly attached slot with an
/// empty outbox, or corresponds to a slot with the same identity in the old
/// state whose outbox is a prefix of the new one; the transport takes
/// envelopes only from the front (see [`lemma_pop_takes_head`]).
pub proof fn lemma_outbox_fifo(m: HubModel, op: HubOp)
    requires
        m.wf(),
        !(op matches HubOp::Pop { .. }),
    ensures
        forall|j: int|
            0 <= j < apply_op(m, op).peers.len() ==> #[trigger] apply_op(
                m,
                op,
            ).peers[j].outbox.len() == 0 || exists|j0: int|
                {
                    &&& 0 <= j0 < m.peers.len()
                    &&& m.peers[j0].user_id == apply_op(m, op).peers[j].user_id
                    &&& m.peers[j0].outbox.is_prefix_of(apply_op(m, op).peers[j].outbox)
                },
{
    let m2 = apply_op(m, op);
    assert forall|j: int|
        0 <= j < m2.peers.len() && #[trigger] m2.peers[j].outbox.len() != 0 implies exists|j0: int|
        {
            &&& 0 <= j0 < m.peers.len()
            &&& m.peers[j0].user_id == m2.peers[j].user_id
            &&& m.peers[j0].outbox.is_prefix_of(m2.peers[j].outbox)
        } by {
        match op {
            HubOp::Attach { id } => {
                if j < m.peers.len() {
                    assert(m.peers[j].outbox.is_prefix_of(m2.peers[j].outbox));
                } else {
                    assert(m2.peers[j].outbox.len() == 0);
                }
            },
            HubOp::Detach { id } => {
                if m.has_peer(id) {
                    let i = m.peer_index(id);
                    let oj = if j < i {
                        j
                    } else {
                        j + 1
                    };
                    assert(m.peers[oj].user_id == m2.peers[j].user_id);
                    assert(m.peers[oj].outbox.is_prefix_of(m2.peers[j].outbox));
                } else {
                    assert(m.peers[j].outbox.is_prefix_of(m2.peers[j].outbox));
                }
            },
            _ => {
                assert(m.peers[j].user_id == m2.peers[j].user_id);
                assert(m.peers[j].outbox.is_prefix_of(m2.peers[j].outbox));
            },
        }
    }
}

/// Ordering of notifications against routed traffic: when a peer
/// registers and then routes to a peer that was already registered and
/// had room in its outbox, the recipient's outbox holds the `user_joined`
/// strictly before the routed envelope. Together with
/// [`lemma_outbox_fifo`] this is the promise that nobody receives a
/// routed envelope from a sender it has not first seen join.
pub proof fn lemma_joined_before_routed(
    m: HubModel,
    id: Seq<u8>,
    name: Seq<u8>,
    kind: RouteKind,
    target: Seq<u8>,
    payload: Seq<u8>,
)
    requires
        m.wf(),
        m.has_peer(id),
        !m.peer(id).registered,
        m.has_peer(target),
        target != id,
        m.peer(target).registered,
        m.peer(target).outbox.len() + 1 < OUTBOX_CAPACITY,
    ensures
        ({
            let m2 = route_t(register_t(m, id, name), id, kind, target, payload);
            let ti = m.peer_index(target);
            m2.peers[ti].outbox == m.peer(target).outbox.push(
                ServerEnvelopeModel::UserJoined { user_id: id, display_name: name },
            ).push(ServerEnvelopeModel::Routed { kind, from_user_id: id, payload })
        }),
{
    let i = m.peer_index(id);
    let ti = m.peer_index(target);
    let m1 = register_t(m, id, name);
    assert(m1.peers.len() == m.peers.len());
    assert(forall|j: int|
        0 <= j < m.peers.len() ==> #[trigger] m1.peers[j].user_id == m.peers[j].user_id);
    lemma_ops_preserve_wf(m, HubOp::Register { id, name });
    assert(m1.peers[ti].outbox == m.peers[ti].outbox.push(
        ServerEnvelopeModel::UserJoined { user_id: id, display_name: name },
    ));
    assert(m1.has_peer(id) && m1.peer_index(id) == i) by {
        assert(m1.peers[i].user_id == id);
        let k = m1.peer_index(id);
        assert(0 <= k < m1.peers.len() && m1.peers[k].user_id == id);
        assert(k == i);
    }
    assert(m1.peers[i].registered);
    assert(m1.has_peer(target) && m1.peer_index(target) == ti) by {
        assert(m1.peers[ti].user_id == target);
        let k = m1.peer_index(target);
        assert(0 <= k < m1.peers.len() && m1.peers[k].user_id == target);
        assert(k == ti);
    }
    assert(m1.peers[ti].registered);
    let m2 = route_t(m1, id, kind, target, payload);
    assert(m1.peers[ti].outbox.len() < OUTBOX_CAPACITY);
    assert(m2.peers[ti].outbox == m1.peers[ti].outbox.push(
        ServerEnvelopeModel::Routed { kind, from_user_id: id, payload },
    ));
}

/// Opaque payload, end to end: when a frame decodes to a routing envelope
/// and both peers are registered with room at the target, the payload the
/// target is enqueued — and the bytes later written for it — carry the
/// payload verbatim, itself a contiguous byte span of the received frame.
/// Whitespace inside the payload value is not even normalized: the bytes
/// are identical.
pub proof fn lemma_opaque_payload_relay(
    m: HubModel,
    sender: Seq<u8>,
    frame: Seq<u8>,
    kind: RouteKind,
    target: Seq<u8>,
    payload: Seq<u8>,
)
    requires
        m.wf(),
        crate::codec::spec_parse_frame(frame) == Some(
            crate::envelope::ClientEnvelopeModel::Route {
                kind,
                target_user_id: target,
                payload,
            },
        ),
        m.has_peer(sender),
        m.peer(sender).registered,
        m.has_peer(target),
        m.peer(target).registered,
        m.peer(target).outbox.len() < OUTBOX_CAPACITY,
    ensures
        crate::codec::is_span_of(frame, payload),
        ({
            let m2 = crate::session::handle_frame_t(m, sender, frame);
            let ti = m.peer_index(target);
            let routed = ServerEnvelopeModel::Routed { kind, from_user_id: sender, payload };
            &&& m2.peers[ti].outbox == m.peer(target).outbox.push(routed)
            &&& crate::codec::spec_serialize_server(routed) == crate::codec::spec_routed_prefix(
                kind,
            ) + crate::codec::spec_quoted(sender) + crate::codec::spec_routed_key(kind) + payload
                + vstd::utf8::encode_utf8("}"@)
        }),
{
    crate::codec::lemma_parse_payload_verbatim(frame, kind, target, payload);
    let fi = m.peer_index(sender);
    let ti = m.peer_index(target);
    let m2 = crate::session::handle_frame_t(m, sender, frame);
    assert(m2 == route_t(m, sender, kind, target, payload));
    assert(m.peers[fi].registered);
    assert(m2.peers[ti].outbox == m.peers[ti].outbox.push(
        ServerEnvelopeModel::Routed { kind, from_user_id: sender, payload },
    ));
}

/// The transport side takes envelopes strictly from the front: a pop
/// removes exactly the head of the popped peer's outbox and changes
/// nothing else.
pub proof fn lemma_pop_takes_head(m: HubModel, id: Seq<u8>)
    requires
        m.wf(),
    ensures
        m.has_peer(id) && m.peer(id).outbox.len() > 0 ==> {
            let m2 = pop_t(m, id);
            &&& m2.peers.len() == m.peers.len()
            &&& m2.peers[m.peer_index(id)].outbox == m.peer(id).outbox.drop_first()
            &&& forall|j: int|
                0 <= j < m.peers.len() && j != m.peer_index(id) ==> m2.peers[j] == m.peers[j]
        },
        !(m.has_peer(id) && m.peer(id).outbox.len() > 0) ==> pop_t(m, id) == m,
{
}

} // verus!
