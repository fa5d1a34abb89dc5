//! Delivery policy: what becomes of a message after a delivery attempt,
//! per-recipient, and the deferred-retry loop with its capped attempts.

use vstd::prelude::*;
use vstd::multiset::Multiset;
use crate::context::{Recipient, RcptStatus};
use crate::queue::{QueueID, QueueManager};

verus! {

/// What the queue side does with a message after one delivery attempt.
#[derive(Clone, Copy, PartialEq, Eq, Structural, Debug)]
pub enum SenderOutcome {
    /// Every recipient was sent: the queue entry is deleted.
    RemoveFromDisk,
    /// Some recipient still waits or was held back: try again later.
    MoveToDeferred,
    /// Nothing remains but terminal failures: give the message up.
    MoveToDead,
}

/// All recipients have been sent.
pub open spec fn all_sent(rs: Seq<Recipient>) -> bool {
    forall|i: int| 0 <= i < rs.len() ==> (#[trigger] rs[i]).status is Sent
}

/// Some recipient still waits for delivery or was held back with errors.
pub open spec fn any_pending(rs: Seq<Recipient>) -> bool {
    exists|i: int|
        0 <= i < rs.len() && ((#[trigger] rs[i]).status is Waiting || rs[i].status is HeldBack)
}

/// The policy over an updated recipient list: all sent removes the entry,
/// anything still pending defers it, and a list of nothing but terminal
/// states goes to the dead queue, as does a message with no recipient.
pub fn sender_outcome(rcpt: &Vec<Recipient>) -> (r: SenderOutcome)
    ensures
        (r == SenderOutcome::MoveToDeferred) <==> any_pending(rcpt@),
        (r == SenderOutcome::RemoveFromDisk) <==> (rcpt@.len() > 0 && all_sent(rcpt@)),
        (r == SenderOutcome::MoveToDead) <==> (rcpt@.len() == 0 || (!any_pending(rcpt@)
            && !all_sent(rcpt@))),
{
    if rcpt.len() == 0 {
        return SenderOutcome::MoveToDead;
    }
    let mut pending = false;
    let mut sent_everywhere = true;
    let mut i: usize = 0;
    while i < rcpt.len()
        invariant
            i <= rcpt@.len(),
            pending == exists|j: int|
                0 <= j < i && ((#[trigger] rcpt@[j]).status is Waiting || rcpt@[j].status
                    is HeldBack),
            sent_everywhere == forall|j: int| 0 <= j < i ==> (#[trigger] rcpt@[j]).status is Sent,
        decreases rcpt@.len() - i,
    {
        match &rcpt[i].status {
            RcptStatus::Waiting => {
                pending = true;
                sent_everywhere = false;
            },
            RcptStatus::HeldBack { .. } => {
                pending = true;
                sent_everywhere = false;
            },
            RcptStatus::Failed { .. } => {
                sent_everywhere = false;
            },
            RcptStatus::Sent { .. } => {},
        }
        i = i + 1;
    }
    if pending {
        SenderOutcome::MoveToDeferred
    } else if sent_everywhere {
        SenderOutcome::RemoveFromDisk
    } else {
        SenderOutcome::MoveToDead
    }
}

/// The order two MX candidates are tried in: strictly by preference, and
/// by arrival position within one preference, so that records of equal
/// preference keep their answer order.
pub open spec fn mx_le(a: (u16, usize), b: (u16, usize)) -> bool {
    a.0 < b.0 || (a.0 == b.0 && a.1 <= b.1)
}

fn mx_le_exec(a: (u16, usize), b: (u16, usize)) -> (r: bool)
    ensures
        r == mx_le(a, b),
{
    a.0 < b.0 || (a.0 == b.0 && a.1 <= b.1)
}

fn min_mx_index(rest: &Vec<(u16, usize)>) -> (r: usize)
    requires
        rest@.len() > 0,
    ensures
        r < rest@.len(),
        forall|k: int| 0 <= k < rest@.len() ==> mx_le(rest@[r as int], #[trigger] rest@[k]),
{
    let mut m: usize = 0;
    let mut k: usize = 1;
    while k < rest.len()
        invariant
            m < k <= rest@.len(),
            forall|j: int| 0 <= j < k ==> mx_le(rest@[m as int], #[trigger] rest@[j]),
        decreases rest@.len() - k,
    {
        if !mx_le_exec(rest[m], rest[k]) {
            proof {
                assert(rest@[k as int].0 <= rest@[m as int].0);
            }
            m = k;
        }
        k = k + 1;
    }
    m
}

/// Orders MX candidates for the delivery attempts: each candidate is its
/// preference and its position in the DNS answer. The result is the same
/// candidates, tried strictly in preference order, and in answer order
/// within one preference.
pub fn sort_mx_candidates(records: &Vec<(u16, usize)>) -> (r: Vec<(u16, usize)>)
    ensures
        r@.len() == records@.len(),
        forall|i: int, j: int| 0 <= i < j < r@.len() ==> mx_le(#[trigger] r@[i], #[trigger] r@[j]),
        r@.to_multiset() == records@.to_multiset(),
{
    proof {
        broadcast use vstd::seq_lib::group_to_multiset_ensures;

    }
    let mut rest: Vec<(u16, usize)> = Vec::new();
    let mut t: usize = 0;
    while t < records.len()
        invariant
            t <= records@.len(),
            rest@ =~= records@.subrange(0, t as int),
        decreases records@.len() - t,
    {
        rest.push(records[t]);
        t = t + 1;
        proof {
            assert(rest@ =~= records@.subrange(0, t as int));
        }
    }
    proof {
        assert(rest@ =~= records@);
    }
    let mut out: Vec<(u16, usize)> = Vec::new();
    while rest.len() > 0
        invariant
            out@.to_multiset().add(rest@.to_multiset()) =~= records@.to_multiset(),
            out@.len() + rest@.len() == records@.len(),
            forall|i: int, j: int|
                0 <= i < j < out@.len() ==> mx_le(#[trigger] out@[i], #[trigger] out@[j]),
            forall|i: int, k: int|
                0 <= i < out@.len() && 0 <= k < rest@.len() ==> mx_le(
                    #[trigger] out@[i],
                    #[trigger] rest@[k],
                ),
        decreases rest@.len(),
    {
        proof {
            broadcast use vstd::seq_lib::group_to_multiset_ensures;

        }
        let m = min_mx_index(&rest);
        let ghost rest0 = rest@;
        let ghost out0 = out@;
        let picked = rest.remove(m);
        out.push(picked);
        proof {
            assert(rest@ =~= rest0.remove(m as int));
            assert(out@ =~= out0.push(picked));
            assert(out@.to_multiset() =~= out0.to_multiset().insert(picked));
            assert(rest@.to_multiset() =~= rest0.to_multiset().remove(picked));
            assert(rest0.to_multiset().count(picked) > 0) by {
                assert(rest0.contains(picked)) by {
                    assert(rest0[m as int] == picked);
                }
            }
            assert(out@.to_multiset().add(rest@.to_multiset()) =~= records@.to_multiset());
            assert forall|i: int, k: int|
                0 <= i < out@.len() && 0 <= k < rest@.len() implies mx_le(
                #[trigger] out@[i],
                #[trigger] rest@[k],
            ) by {
                if k < m {
                    assert(rest@[k] == rest0[k]);
                } else {
                    assert(rest@[k] == rest0[k + 1]);
                }
                if i < out0.len() {
                    assert(out@[i] == out0[i]);
                } else {
                    assert(out@[i] == picked);
                }
            }
        }
    }
    proof {
        broadcast use vstd::seq_lib::group_to_multiset_ensures;

        assert(rest@.to_multiset() =~= Multiset::<(u16, usize)>::empty()) by {
            assert(rest@ =~= Seq::<(u16, usize)>::empty());
        }
        assert(out@.to_multiset() =~= records@.to_multiset());
    }
    out
}

/// What one pass of the deferred loop did for a message.
#[derive(Clone, Copy, PartialEq, Eq, Structural, Debug)]
pub enum DeferredAction {
    /// The retry cap was reached: the message went to the dead queue.
    MovedToDead,
    /// The attempt succeeded: the entry is gone.
    Removed,
    /// The attempt failed below the cap: the retry count went up in place.
    RetryIncremented,
}

/// One deferred message on one tick: at or above the retry cap it moves to
/// the dead queue without an attempt; below the cap, a successful attempt
/// removes it and a failed one rewrites it in place with one more retry.
/// The message moves to the dead queue exactly when the cap was reached.
pub fn handle_one_in_deferred_queue(
    qm: &mut QueueManager,
    uuid: u128,
    max_retry: u64,
    delivered: bool,
) -> (r: DeferredAction)
    requires
        old(qm).inv(),
        old(qm).in_queue(QueueID::Deferred, uuid),
    ensures
        final(qm).inv(),
        final(qm).in_queue(QueueID::Dead, uuid) <==> old(qm).retry_of(uuid) >= max_retry,
        r == DeferredAction::MovedToDead <==> old(qm).retry_of(uuid) >= max_retry,
        old(qm).retry_of(uuid) < max_retry && delivered ==> r == DeferredAction::Removed
            && !final(qm).holds(uuid),
        old(qm).retry_of(uuid) < max_retry && !delivered ==> {
            &&& r == DeferredAction::RetryIncremented
            &&& final(qm).in_queue(QueueID::Deferred, uuid)
            &&& final(qm).retry_of(uuid) == old(qm).retry_of(uuid) + 1
        },
        forall|u: u128, p: QueueID|
            u != uuid ==> (final(qm).in_queue(p, u) <==> old(qm).in_queue(p, u)),
{
    let retry = match qm.get_ctx(QueueID::Deferred, uuid) {
        Some(retry) => retry,
        None => {
            proof {
                assert(false);
            }
            0
        },
    };
    if retry >= max_retry {
        let moved = qm.move_to(QueueID::Deferred, QueueID::Dead, uuid);
        proof {
            assert(moved is Ok);
        }
        DeferredAction::MovedToDead
    } else if delivered {
        let removed = qm.remove_both(QueueID::Deferred, uuid);
        proof {
            assert(removed is Ok);
        }
        DeferredAction::Removed
    } else {
        let updated = qm.set_retry(uuid, retry + 1);
        proof {
            assert(updated);
        }
        DeferredAction::RetryIncremented
    }
}

/// What handling a message of the delivery queue did.
#[derive(Clone, Copy, PartialEq, Eq, Structural, Debug)]
pub enum DeliveryAction {
    /// The delivery rules denied the message: it went to the dead queue.
    DeniedToDead,
    /// A rule turned delivery off for this message: it stays where it is.
    Skipped,
    /// Delivered: the entry is gone.
    Delivered,
    /// The attempt failed: the message went to the deferred queue.
    MovedToDeferred,
}

/// One message of the delivery queue: a denial by the delivery-stage rules
/// sends it to the dead queue; a rule that switched delivery off leaves it
/// untouched; otherwise a successful attempt removes it and a failed one
/// defers it.
pub fn handle_one_in_delivery_queue(
    qm: &mut QueueManager,
    uuid: u128,
    denied: bool,
    delivery_disabled: bool,
    delivered: bool,
) -> (r: DeliveryAction)
    requires
        old(qm).inv(),
        old(qm).in_queue(QueueID::Deliver, uuid),
    ensures
        final(qm).inv(),
        denied ==> r == DeliveryAction::DeniedToDead && final(qm).in_queue(QueueID::Dead, uuid)
            && !final(qm).in_queue(QueueID::Deliver, uuid),
        !denied && delivery_disabled ==> r == DeliveryAction::Skipped && *final(qm) == *old(qm),
        !denied && !delivery_disabled && delivered ==> r == DeliveryAction::Delivered
            && !final(qm).holds(uuid),
        !denied && !delivery_disabled && !delivered ==> {
            &&& r == DeliveryAction::MovedToDeferred
            &&& final(qm).in_queue(QueueID::Deferred, uuid)
            &&& !final(qm).in_queue(QueueID::Deliver, uuid)
            &&& final(qm).retry_of(uuid) == (if old(qm).retry_of(uuid) < u64::MAX {
                (old(qm).retry_of(uuid) + 1) as u64
            } else {
                old(qm).retry_of(uuid)
            })
        },
        forall|u: u128, p: QueueID|
            u != uuid ==> (final(qm).in_queue(p, u) <==> old(qm).in_queue(p, u)),
{
    if denied {
        let moved = qm.move_to(QueueID::Deliver, QueueID::Dead, uuid);
        proof {
            assert(moved is Ok);
        }
        DeliveryAction::DeniedToDead
    } else if delivery_disabled {
        DeliveryAction::Skipped
    } else if delivered {
        let removed = qm.remove_both(QueueID::Deliver, uuid);
        proof {
            assert(removed is Ok);
        }
        DeliveryAction::Delivered
    } else {
        let retry = match qm.get_ctx(QueueID::Deliver, uuid) {
            Some(retry) => retry,
            None => {
                proof {
                    assert(false);
                }
                0
            },
        };
        let moved = qm.move_to(QueueID::Deliver, QueueID::Deferred, uuid);
        proof {
            assert(moved is Ok);
        }
        // The arrival in the deferred queue is itself the first failed
        // attempt: the retry count reflects it at once.
        let bumped = if retry < u64::MAX {
            retry + 1
        } else {
            retry
        };
        let updated = qm.set_retry(uuid, bumped);
        proof {
            assert(updated);
        }
        DeliveryAction::MovedToDeferred
    }
}

} // verus!
