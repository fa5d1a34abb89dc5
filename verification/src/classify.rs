//! Recipient classification: every accepted recipient makes the transaction
//! incoming, outgoing or internal, and an internal recipient splits the
//! transaction into a second context with a fresh message identifier.

use vstd::prelude::*;
use crate::address::{Address, domain_handled, is_handled_domain};
use crate::context::{MailContext, Stage, TransactionType};

verus! {

/// What one recipient makes of the transaction.
#[derive(Clone, Copy, PartialEq, Eq, Structural, Debug)]
pub enum RcptClass {
    /// Sender handled, recipient handled, both under the sender's domain.
    Internal,
    /// Sender handled, recipient elsewhere.
    Outgoing,
    /// Sender foreign, recipient domain handled here.
    IncomingHandled,
    /// Sender foreign, recipient foreign: the relay-denied path.
    IncomingForeign,
}

/// The classification rule, on the three facts it depends on.
pub open spec fn classify_spec(sender_handled: bool, rcpt_handled: bool, same_domain: bool)
    -> RcptClass {
    if sender_handled && rcpt_handled && same_domain {
        RcptClass::Internal
    } else if sender_handled {
        RcptClass::Outgoing
    } else if rcpt_handled {
        RcptClass::IncomingHandled
    } else {
        RcptClass::IncomingForeign
    }
}

/// Classification closure: every combination of the three facts yields one
/// class, and each class arises exactly on its defining combination.
pub proof fn lemma_classification_closure(
    sender_handled: bool,
    rcpt_handled: bool,
    same_domain: bool,
)
    ensures
        (classify_spec(sender_handled, rcpt_handled, same_domain) == RcptClass::Internal)
            <==> (sender_handled && rcpt_handled && same_domain),
        (classify_spec(sender_handled, rcpt_handled, same_domain) == RcptClass::Outgoing)
            <==> (sender_handled && !(rcpt_handled && same_domain)),
        (classify_spec(sender_handled, rcpt_handled, same_domain) == RcptClass::IncomingHandled)
            <==> (!sender_handled && rcpt_handled),
        (classify_spec(sender_handled, rcpt_handled, same_domain) == RcptClass::IncomingForeign)
            <==> (!sender_handled && !rcpt_handled),
{
}

/// The domain of the reverse path, when the context has a non-null sender.
pub open spec fn reverse_domain_spec(ctx: MailContext) -> Option<Seq<u8>> {
    match ctx.reverse_path {
        Some(Some(a)) => Some(a.domain@),
        _ => None,
    }
}

/// Whether the sender of `ctx` is handled by one of `domains`.
pub open spec fn sender_handled_spec(ctx: MailContext, domains: Seq<Seq<u8>>) -> bool {
    match reverse_domain_spec(ctx) {
        Some(d) => domain_handled(domains, d),
        None => false,
    }
}

/// Which of the two per-connection contexts the just-added recipient went
/// to, and so which one the RCPT stage rules must run on.
#[derive(Clone, Copy, PartialEq, Eq, Structural, Debug)]
pub enum RcptSlot {
    Primary,
    InternalSlot,
}

/// Classifies one accepted recipient and applies the outcome to the primary
/// context and, for an internal recipient, to the internal-split context,
/// which is created on first use with a fresh message identifier and an
/// empty recipient list.
pub fn apply_rcpt(
    ctx: &mut MailContext,
    internal: &mut Option<MailContext>,
    forward_path: Address,
    handled_domains: &Vec<Vec<u8>>,
) -> (r: RcptSlot)
    requires
        old(ctx).wf(),
        old(ctx).stage == Stage::MailFrom || old(ctx).stage == Stage::RcptTo,
        old(ctx).stage == Stage::RcptTo ==> old(ctx).transaction_type is Some,
        forward_path.wf(),
        (*old(internal)) is Some ==> ({
            let i = (*old(internal))->0;
            &&& i.wf()
            &&& i.stage == Stage::MailFrom || i.stage == Stage::RcptTo
            &&& (i.stage == Stage::RcptTo ==> i.transaction_type is Some)
        }),
    ensures
        ({
            let domains = handled_domains@.map_values(|d: Vec<u8>| d@);
            let sh = sender_handled_spec(*old(ctx), domains);
            let rh = domain_handled(domains, forward_path.domain@);
            let sd = reverse_domain_spec(*old(ctx)) == Some(forward_path.domain@);
            let class = classify_spec(sh, rh, sd);
            &&& (r == RcptSlot::InternalSlot <==> class == RcptClass::Internal)
            &&& (class == RcptClass::Internal ==> {
                &&& (*final(internal)) is Some
                &&& (*final(internal))->0.wf()
                &&& (*final(internal))->0.stage == Stage::RcptTo
                &&& (*final(internal))->0.transaction_type == Some(TransactionType::Internal)
                &&& (*final(internal))->0.forward_paths@.last().address == forward_path
                &&& (*final(internal))->0.forward_paths@.last().status is Waiting
                &&& ((*old(internal)) is None ==> crate::context::same_reverse_path(
                    (*final(internal))->0.reverse_path,
                    old(ctx).reverse_path,
                ))
                &&& ((*old(internal)) is Some ==> (*final(internal))->0.forward_paths@.len()
                    == (*old(internal))->0.forward_paths@.len() + 1)
                &&& ((*old(internal)) is None ==> (*final(internal))->0.forward_paths@.len() == 1)
                &&& final(ctx).forward_paths == old(ctx).forward_paths
                &&& final(ctx).transaction_type matches Some(TransactionType::Outgoing {
                    domain,
                }) && domain@ == reverse_domain_spec(*old(ctx))->0
                &&& final(ctx).stage == old(ctx).stage
                &&& final(ctx).wf()
            })
            &&& (class == RcptClass::Outgoing ==> {
                &&& *final(internal) == *old(internal)
                &&& final(ctx).forward_paths@.len() == old(ctx).forward_paths@.len() + 1
                &&& final(ctx).forward_paths@.last().address == forward_path
                &&& final(ctx).forward_paths@.last().status is Waiting
                &&& final(ctx).transaction_type matches Some(TransactionType::Outgoing {
                    domain,
                }) && domain@ == reverse_domain_spec(*old(ctx))->0
                &&& final(ctx).stage == Stage::RcptTo
                &&& final(ctx).wf()
            })
            &&& (class == RcptClass::IncomingHandled ==> {
                &&& *final(internal) == *old(internal)
                &&& final(ctx).forward_paths@.len() == old(ctx).forward_paths@.len() + 1
                &&& final(ctx).forward_paths@.last().address == forward_path
                &&& final(ctx).forward_paths@.last().status is Waiting
                &&& final(ctx).transaction_type matches Some(TransactionType::Incoming {
                    handled_domain: Some(d),
                }) && d@ == forward_path.domain@
                &&& final(ctx).stage == Stage::RcptTo
                &&& final(ctx).wf()
            })
            &&& (class == RcptClass::IncomingForeign ==> {
                &&& *final(internal) == *old(internal)
                &&& final(ctx).forward_paths@.len() == old(ctx).forward_paths@.len() + 1
                &&& final(ctx).forward_paths@.last().address == forward_path
                &&& final(ctx).forward_paths@.last().status is Waiting
                &&& final(ctx).transaction_type == Some(TransactionType::Incoming {
                    handled_domain: None,
                })
                &&& final(ctx).stage == Stage::RcptTo
                &&& final(ctx).wf()
            })
            &&& final(ctx).reverse_path == old(ctx).reverse_path
            &&& final(ctx).message_uuid == old(ctx).message_uuid
            &&& final(ctx).helo == old(ctx).helo
            &&& old(ctx).same_connection(*final(ctx))
        }),
{
    let (sender_handled, same_domain): (bool, bool) = match &ctx.reverse_path {
        Some(Some(a)) => {
            let sh = is_handled_domain(handled_domains, &a.domain);
            let sd = crate::address::bytes_eq(&a.domain, &forward_path.domain);
            (sh, sd)
        },
        _ => (false, false),
    };
    let rcpt_handled = is_handled_domain(handled_domains, &forward_path.domain);
    proof {
        if !(reverse_domain_spec(*old(ctx)) is Some) {
            assert(!sender_handled);
            assert(reverse_domain_spec(*old(ctx)) != Some(forward_path.domain@));
        }
    }
    if sender_handled && rcpt_handled && same_domain {
        // Internal: the recipient goes to the split context; the primary
        // transaction is henceforth the outgoing remainder.
        let reverse_domain = match &ctx.reverse_path {
            Some(Some(a)) => a.domain.clone(),
            _ => Vec::new(),
        };
        match internal.take() {
            Some(mut split) => {
                split.set_transaction_type(TransactionType::Internal);
                split.add_forward_path(forward_path);
                *internal = Some(split);
            },
            None => {
                let mut split = ctx.clone_for_split(crate::ids::new_uuid_v128());
                split.set_transaction_type(TransactionType::Internal);
                split.add_forward_path(forward_path);
                *internal = Some(split);
            },
        }
        ctx.set_transaction_type(TransactionType::Outgoing { domain: reverse_domain });
        RcptSlot::InternalSlot
    } else if sender_handled {
        let reverse_domain = match &ctx.reverse_path {
            Some(Some(a)) => a.domain.clone(),
            _ => Vec::new(),
        };
        ctx.set_transaction_type(TransactionType::Outgoing { domain: reverse_domain });
        ctx.add_forward_path(forward_path);
        RcptSlot::Primary
    } else if rcpt_handled {
        let d = forward_path.domain.clone();
        ctx.set_transaction_type(TransactionType::Incoming { handled_domain: Some(d) });
        ctx.add_forward_path(forward_path);
        RcptSlot::Primary
    } else {
        ctx.set_transaction_type(TransactionType::Incoming { handled_domain: None });
        ctx.add_forward_path(forward_path);
        RcptSlot::Primary
    }
}

} // verus!
