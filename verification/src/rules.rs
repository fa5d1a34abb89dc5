//! The filter engine: stage-keyed batches of directives organized in a
//! sub-domain hierarchy, the selection of the script that runs at each
//! stage, short-circuiting execution, the memoized terminal verdict, and
//! resumption after a delegation.

use vstd::prelude::*;
use vstd::string::StringSliceAdditionalSpecFns;
use crate::address::{parent_domain, parent_domain_spec, bytes_eq};
use crate::classify::{reverse_domain_spec, sender_handled_spec};
use crate::context::{MailContext, TransactionType};
use crate::reply::{CodeID, Reply};

verus! {

/// The points of the transaction at which rules run.
#[derive(Clone, Copy, PartialEq, Eq, Structural, Debug)]
pub enum ExecutionStage {
    Connect,
    Helo,
    Authenticate,
    MailFrom,
    RcptTo,
    PreQ,
    PostQ,
    Delivery,
}

/// The stages at which the message has already been received and queued;
/// only these may resume a delegation.
pub open spec fn is_email_received(s: ExecutionStage) -> bool {
    s == ExecutionStage::PostQ || s == ExecutionStage::Delivery
}

/// A reply taken from the code table, or spelled out by a rule.
pub enum ReplyOrCode {
    Code(CodeID),
    Custom(Reply),
}

/// What a directive decides for the transaction.
pub enum Status {
    /// Continue with the next rule; at the end of a batch, continue the
    /// transaction.
    Next,
    /// End the stage and accept; later stages skip their user rules.
    Accept(ReplyOrCode),
    /// Forced accept: every remaining rule is bypassed.
    Faccept(ReplyOrCode),
    /// End the stage, refuse, and close the transaction.
    Deny(ReplyOrCode),
    /// Continue, but divert the message to the named quarantine at postq.
    Quarantine(Vec<u8>),
    /// A delegation suspended the transaction; no reply is owed yet.
    DelegationResult,
    /// Internal marker used once when a delegation resumes.
    Delegated,
}

/// A terminal verdict, memoized so that later stages short-circuit.
pub open spec fn is_finished(s: Status) -> bool {
    s is Accept || s is Faccept || s is Deny || s is Quarantine
}

/// Equality of reply choices, by content.
pub open spec fn same_reply_or_code(a: ReplyOrCode, b: ReplyOrCode) -> bool {
    match (a, b) {
        (ReplyOrCode::Code(x), ReplyOrCode::Code(y)) => x == y,
        (ReplyOrCode::Custom(x), ReplyOrCode::Custom(y)) => crate::reply::same_reply(x, y),
        _ => false,
    }
}

/// Equality of verdicts, by content.
pub open spec fn same_status(a: Status, b: Status) -> bool {
    match (a, b) {
        (Status::Next, Status::Next) => true,
        (Status::Accept(x), Status::Accept(y)) => same_reply_or_code(x, y),
        (Status::Faccept(x), Status::Faccept(y)) => same_reply_or_code(x, y),
        (Status::Deny(x), Status::Deny(y)) => same_reply_or_code(x, y),
        (Status::Quarantine(x), Status::Quarantine(y)) => x@ == y@,
        (Status::DelegationResult, Status::DelegationResult) => true,
        (Status::Delegated, Status::Delegated) => true,
        _ => false,
    }
}

impl Status {
    /// Whether this verdict ends rule evaluation for the transaction.
    pub fn finished(&self) -> (r: bool)
        ensures
            r == is_finished(*self),
    {
        match self {
            Status::Accept(_) => true,
            Status::Faccept(_) => true,
            Status::Deny(_) => true,
            Status::Quarantine(_) => true,
            _ => false,
        }
    }

    fn is_next(&self) -> (r: bool)
        ensures
            r == (*self is Next),
    {
        match self {
            Status::Next => true,
            _ => false,
        }
    }

    /// A deep copy.
    pub fn duplicate(&self) -> (r: Status)
        ensures
            same_status(r, *self),
    {
        match self {
            Status::Next => Status::Next,
            Status::Accept(e) => Status::Accept(duplicate_reply_or_code(e)),
            Status::Faccept(e) => Status::Faccept(duplicate_reply_or_code(e)),
            Status::Deny(e) => Status::Deny(duplicate_reply_or_code(e)),
            Status::Quarantine(q) => Status::Quarantine(q.clone()),
            Status::DelegationResult => Status::DelegationResult,
            Status::Delegated => Status::Delegated,
        }
    }
}

fn duplicate_reply_or_code(e: &ReplyOrCode) -> (r: ReplyOrCode)
    ensures
        same_reply_or_code(r, *e),
{
    match e {
        ReplyOrCode::Code(c) => ReplyOrCode::Code(*c),
        ReplyOrCode::Custom(rep) => ReplyOrCode::Custom(rep.duplicate()),
    }
}

/// What a directive is: a rule whose verdict ends the stage, an action that
/// only observes, or a delegation to an external service.
#[derive(Clone, Copy, PartialEq, Eq, Structural, Debug)]
pub enum DirectiveKind {
    Rule,
    Action,
    Delegate,
}

/// One compiled directive. The verdict its body evaluates to is carried as
/// data: the engine only sequences verdicts, it does not interpret scripts.
pub struct Directive {
    pub name: Vec<u8>,
    pub kind: DirectiveKind,
    pub outcome: Status,
}

/// The verdict a directive contributes when executed: actions always
/// continue, a delegation suspends, a rule decides.
pub open spec fn effective_status(d: Directive) -> Status {
    match d.kind {
        DirectiveKind::Action => Status::Next,
        DirectiveKind::Delegate => Status::DelegationResult,
        DirectiveKind::Rule => d.outcome,
    }
}

/// One stage's batch within a script.
pub struct StageRules {
    pub stage: ExecutionStage,
    pub directives: Vec<Directive>,
}

/// A compiled filter script: its batches, keyed by stage.
pub struct Script {
    pub stages: Vec<StageRules>,
}

/// The batch a script holds for a stage, if any: the first entry wins.
pub open spec fn script_batch(s: Script, stage: ExecutionStage) -> Option<Seq<Directive>>
    decreases s.stages@.len(),
{
    script_batch_from(s.stages@, stage, 0)
}

pub open spec fn script_batch_from(
    entries: Seq<StageRules>,
    stage: ExecutionStage,
    i: int,
) -> Option<Seq<Directive>>
    decreases entries.len() - i,
{
    if i < 0 || i >= entries.len() {
        None
    } else if entries[i].stage == stage {
        Some(entries[i].directives@)
    } else {
        script_batch_from(entries, stage, i + 1)
    }
}

/// The three per-direction scripts of one handled domain.
pub struct DomainDirectives {
    pub domain: Vec<u8>,
    pub incoming: Script,
    pub outgoing: Script,
    pub internal: Script,
}

/// The rule hierarchy: the root filter, one entry per handled domain, and
/// the fallback for contradictory classifications.
pub struct Hierarchy {
    pub root_filter: Script,
    pub fallback: Script,
    pub domains: Vec<DomainDirectives>,
}

/// The names of the handled domains, in order.
pub open spec fn domain_names(h: Hierarchy) -> Seq<Seq<u8>> {
    h.domains@.map_values(|d: DomainDirectives| d.domain@)
}

/// Index of the first entry for exactly `d`, searching from `i`.
pub open spec fn find_domain_from(entries: Seq<DomainDirectives>, d: Seq<u8>, i: int) -> Option<
    int,
>
    decreases entries.len() - i,
{
    if i < 0 || i >= entries.len() {
        None
    } else if entries[i].domain@ == d {
        Some(i)
    } else {
        find_domain_from(entries, d, i + 1)
    }
}

/// The entry for a domain: an exact match, or the first entry met while
/// walking the parent chain.
pub open spec fn domain_lookup_spec(entries: Seq<DomainDirectives>, d: Seq<u8>) -> Option<int>
    decreases d.len(),
{
    match find_domain_from(entries, d, 0) {
        Some(i) => Some(i),
        None => match parent_domain_spec(d) {
            Some(p) => if p.len() < d.len() {
                domain_lookup_spec(entries, p)
            } else {
                None
            },
            None => None,
        },
    }
}

proof fn lemma_find_domain_skip(entries: Seq<DomainDirectives>, d: Seq<u8>, i: int)
    requires
        0 <= i <= entries.len(),
        forall|j: int| 0 <= j < i ==> (#[trigger] entries[j]).domain@ != d,
    ensures
        find_domain_from(entries, d, 0) == find_domain_from(entries, d, i),
    decreases i,
{
    if i > 0 {
        lemma_find_domain_skip(entries, d, i - 1);
        assert(find_domain_from(entries, d, i - 1) == find_domain_from(entries, d, i));
    }
}

fn find_domain_exact(entries: &Vec<DomainDirectives>, d: &Vec<u8>) -> (r: Option<usize>)
    ensures
        match r {
            Some(i) => find_domain_from(entries@, d@, 0) == Some(i as int) && i < entries@.len(),
            None => find_domain_from(entries@, d@, 0) is None,
        },
{
    let mut i: usize = 0;
    while i < entries.len()
        invariant
            i <= entries@.len(),
            forall|j: int| 0 <= j < i ==> (#[trigger] entries@[j]).domain@ != d@,
        decreases entries@.len() - i,
    {
        if bytes_eq(&entries[i].domain, d) {
            proof {
                lemma_find_domain_skip(entries@, d@, i as int);
            }
            return Some(i);
        }
        i = i + 1;
    }
    proof {
        lemma_find_domain_skip(entries@, d@, entries@.len() as int);
    }
    None
}

/// Finds the rules for a domain, walking the parent chain when the exact
/// domain has no entry.
pub fn get_domain_directives(h: &Hierarchy, d: &Vec<u8>) -> (r: Option<usize>)
    ensures
        match r {
            Some(i) => domain_lookup_spec(h.domains@, d@) == Some(i as int) && i < h.domains@.len(),
            None => domain_lookup_spec(h.domains@, d@) is None,
        },
    decreases d@.len(),
{
    match find_domain_exact(&h.domains, d) {
        Some(i) => Some(i),
        None => match parent_domain(d) {
            Some(p) => get_domain_directives(h, &p),
            None => None,
        },
    }
}

/// The verdict of a batch: the first verdict other than `Next`, or `Next`
/// when every directive continues.
pub open spec fn batch_status(ds: Seq<Directive>) -> Status
    decreases ds.len(),
{
    if ds.len() == 0 {
        Status::Next
    } else if !(effective_status(ds[0]) is Next) {
        effective_status(ds[0])
    } else {
        batch_status(ds.drop_first())
    }
}

fn directive_status(d: &Directive) -> (r: Status)
    ensures
        same_status(r, effective_status(*d)),
{
    match d.kind {
        DirectiveKind::Action => Status::Next,
        DirectiveKind::Delegate => Status::DelegationResult,
        DirectiveKind::Rule => d.outcome.duplicate(),
    }
}

proof fn lemma_batch_status_split(ds: Seq<Directive>, i: int)
    requires
        0 <= i <= ds.len(),
        forall|j: int| 0 <= j < i ==> effective_status(#[trigger] ds[j]) is Next,
    ensures
        batch_status(ds) == batch_status(ds.skip(i)),
    decreases i,
{
    if i > 0 {
        assert(effective_status(ds[0]) is Next);
        assert(ds.drop_first() =~= ds.skip(1));
        lemma_batch_status_split_helper(ds, i);
    } else {
        assert(ds.skip(0) =~= ds);
    }
}

proof fn lemma_batch_status_split_helper(ds: Seq<Directive>, i: int)
    requires
        0 < i <= ds.len(),
        forall|j: int| 0 <= j < i ==> effective_status(#[trigger] ds[j]) is Next,
    ensures
        batch_status(ds) == batch_status(ds.skip(i)),
    decreases i,
{
    assert(ds.drop_first() =~= ds.skip(1));
    if i == 1 {
        assert(batch_status(ds) == batch_status(ds.skip(1)));
    } else {
        assert forall|j: int| 0 <= j < i - 1 implies effective_status(
            #[trigger] ds.skip(1)[j],
        ) is Next by {
            assert(ds.skip(1)[j] == ds[j + 1]);
        }
        lemma_batch_status_split_helper(ds.skip(1), i - 1);
        assert(ds.skip(1).skip(i - 1) =~= ds.skip(i));
    }
}

/// Runs the directives of a batch from `from` on, in order, stopping at the
/// first verdict other than `Next`.
pub fn execute_directives_from(ds: &Vec<Directive>, from: usize) -> (r: Status)
    requires
        from <= ds@.len(),
    ensures
        same_status(r, batch_status(ds@.skip(from as int))),
{
    let mut i: usize = from;
    while i < ds.len()
        invariant
            from <= i <= ds@.len(),
            forall|j: int| from <= j < i ==> effective_status(#[trigger] ds@[j]) is Next,
        decreases ds@.len() - i,
    {
        let s = directive_status(&ds[i]);
        if !s.is_next() {
            proof {
                let sub = ds@.skip(from as int);
                assert forall|j: int| 0 <= j < i - from implies effective_status(
                    #[trigger] sub[j],
                ) is Next by {
                    assert(sub[j] == ds@[from + j]);
                }
                lemma_batch_status_split(sub, i - from);
                assert(sub.skip(i - from) =~= ds@.skip(i as int));
                assert(ds@.skip(i as int)[0] == ds@[i as int]);
            }
            return s;
        }
        i = i + 1;
    }
    proof {
        let sub = ds@.skip(from as int);
        assert forall|j: int| 0 <= j < sub.len() implies effective_status(
            #[trigger] sub[j],
        ) is Next by {
            assert(sub[j] == ds@[from + j]);
        }
        lemma_batch_status_split(sub, sub.len() as int);
        assert(sub.skip(sub.len() as int) =~= Seq::<Directive>::empty());
    }
    Status::Next
}

/// Runs a whole batch.
pub fn execute_directives(ds: &Vec<Directive>) -> (r: Status)
    ensures
        same_status(r, batch_status(ds@)),
{
    let r = execute_directives_from(ds, 0);
    proof {
        assert(ds@.skip(0) =~= ds@);
    }
    r
}

/// Which script of the hierarchy a stage runs, for a given context.
#[derive(Clone, Copy, PartialEq, Eq, Structural, Debug)]
pub enum ScriptRef {
    Root,
    Fallback,
    DomainIncoming(usize),
    DomainOutgoing(usize),
    DomainInternal(usize),
}

/// The selection algorithm: which script runs at `stage` for `ctx`. An
/// error stands for a context that lacks the fields the stage needs.
pub open spec fn selection_spec(h: Hierarchy, ctx: MailContext, stage: ExecutionStage) -> Result<
    ScriptRef,
    (),
> {
    match stage {
        ExecutionStage::Connect => Ok(ScriptRef::Root),
        ExecutionStage::Helo => Ok(ScriptRef::Root),
        ExecutionStage::Authenticate => Ok(ScriptRef::Root),
        ExecutionStage::MailFrom => match ctx.reverse_path {
            None => Err(()),
            Some(None) => Ok(ScriptRef::Root),
            Some(Some(a)) => match domain_lookup_spec(h.domains@, a.domain@) {
                Some(i) => Ok(ScriptRef::DomainOutgoing(i as usize)),
                None => Ok(ScriptRef::Root),
            },
        },
        ExecutionStage::RcptTo => {
            if ctx.forward_paths@.len() == 0 || ctx.transaction_type is None {
                Err(())
            } else {
                match ctx.reverse_path {
                    None => Err(()),
                    Some(None) => Ok(ScriptRef::Root),
                    Some(Some(a)) => match domain_lookup_spec(h.domains@, a.domain@) {
                        Some(i) => match ctx.transaction_type->0 {
                            TransactionType::Internal => Ok(ScriptRef::DomainInternal(i as usize)),
                            TransactionType::Outgoing { .. } => Ok(
                                ScriptRef::DomainOutgoing(i as usize),
                            ),
                            TransactionType::Incoming { .. } => Ok(ScriptRef::Fallback),
                        },
                        None => {
                            let rcpt_domain = ctx.forward_paths@.last().address.domain@;
                            if (ctx.transaction_type->0 matches TransactionType::Incoming {
                                handled_domain: Some(_),
                            }) && domain_lookup_spec(h.domains@, rcpt_domain) is Some {
                                Ok(
                                    ScriptRef::DomainIncoming(
                                        domain_lookup_spec(h.domains@, rcpt_domain)->0 as usize,
                                    ),
                                )
                            } else {
                                Ok(ScriptRef::Root)
                            }
                        },
                    },
                }
            }
        },
        _ => {
            if ctx.transaction_type is None {
                Err(())
            } else {
                match ctx.reverse_path {
                    None => Err(()),
                    Some(None) => Ok(ScriptRef::Root),
                    Some(Some(a)) => match domain_lookup_spec(h.domains@, a.domain@) {
                        Some(i) => match ctx.transaction_type->0 {
                            TransactionType::Internal => Ok(ScriptRef::DomainInternal(i as usize)),
                            TransactionType::Outgoing { .. } => Ok(
                                ScriptRef::DomainOutgoing(i as usize),
                            ),
                            TransactionType::Incoming { .. } => Ok(ScriptRef::Fallback),
                        },
                        None => match ctx.transaction_type->0 {
                            TransactionType::Incoming { handled_domain: Some(d) } => match
                                domain_lookup_spec(h.domains@, d@) {
                                Some(i) => Ok(ScriptRef::DomainIncoming(i as usize)),
                                None => Ok(ScriptRef::Fallback),
                            },
                            TransactionType::Incoming { handled_domain: None } => Ok(
                                ScriptRef::Root,
                            ),
                            _ => Ok(ScriptRef::Fallback),
                        },
                    },
                }
            }
        },
    }
}

/// Picks the script a stage runs over the context's classification.
pub fn get_directives_for_smtp_state(h: &Hierarchy, ctx: &MailContext, stage: ExecutionStage)
    -> (r: Result<ScriptRef, ()>)
    ensures
        r == selection_spec(*h, *ctx, stage),
        r matches Ok(ScriptRef::DomainIncoming(i)) ==> i < h.domains@.len(),
        r matches Ok(ScriptRef::DomainOutgoing(i)) ==> i < h.domains@.len(),
        r matches Ok(ScriptRef::DomainInternal(i)) ==> i < h.domains@.len(),
{
    match stage {
        ExecutionStage::Connect | ExecutionStage::Helo | ExecutionStage::Authenticate => Ok(
            ScriptRef::Root,
        ),
        ExecutionStage::MailFrom => match &ctx.reverse_path {
            None => Err(()),
            Some(None) => Ok(ScriptRef::Root),
            Some(Some(a)) => match get_domain_directives(h, &a.domain) {
                Some(i) => Ok(ScriptRef::DomainOutgoing(i)),
                None => Ok(ScriptRef::Root),
            },
        },
        ExecutionStage::RcptTo => {
            if ctx.forward_paths.len() == 0 {
                return Err(());
            }
            let txn = match &ctx.transaction_type {
                None => {
                    return Err(());
                },
                Some(t) => t,
            };
            match &ctx.reverse_path {
                None => Err(()),
                Some(None) => Ok(ScriptRef::Root),
                Some(Some(a)) => match get_domain_directives(h, &a.domain) {
                    Some(i) => match txn {
                        TransactionType::Internal => Ok(ScriptRef::DomainInternal(i)),
                        TransactionType::Outgoing { .. } => Ok(ScriptRef::DomainOutgoing(i)),
                        TransactionType::Incoming { .. } => Ok(ScriptRef::Fallback),
                    },
                    None => {
                        let last = ctx.forward_paths.len() - 1;
                        let incoming_handled = match txn {
                            TransactionType::Incoming { handled_domain: Some(_) } => true,
                            _ => false,
                        };
                        if incoming_handled {
                            match get_domain_directives(h, &ctx.forward_paths[last].address.domain) {
                                Some(i) => Ok(ScriptRef::DomainIncoming(i)),
                                None => Ok(ScriptRef::Root),
                            }
                        } else {
                            Ok(ScriptRef::Root)
                        }
                    },
                },
            }
        },
        ExecutionStage::PreQ | ExecutionStage::PostQ | ExecutionStage::Delivery => {
            let txn = match &ctx.transaction_type {
                None => {
                    return Err(());
                },
                Some(t) => t,
            };
            match &ctx.reverse_path {
                None => Err(()),
                Some(None) => Ok(ScriptRef::Root),
                Some(Some(a)) => match get_domain_directives(h, &a.domain) {
                    Some(i) => match txn {
                        TransactionType::Internal => Ok(ScriptRef::DomainInternal(i)),
                        TransactionType::Outgoing { .. } => Ok(ScriptRef::DomainOutgoing(i)),
                        TransactionType::Incoming { .. } => Ok(ScriptRef::Fallback),
                    },
                    None => match txn {
                        TransactionType::Incoming { handled_domain: Some(d) } => match
                            get_domain_directives(h, d) {
                            Some(i) => Ok(ScriptRef::DomainIncoming(i)),
                            None => Ok(ScriptRef::Fallback),
                        },
                        TransactionType::Incoming { handled_domain: None } => Ok(ScriptRef::Root),
                        _ => Ok(ScriptRef::Fallback),
                    },
                },
            }
        },
    }
}

/// The script a selection points at.
pub open spec fn script_of_spec(h: Hierarchy, r: ScriptRef) -> Script {
    match r {
        ScriptRef::Root => h.root_filter,
        ScriptRef::Fallback => h.fallback,
        ScriptRef::DomainIncoming(i) => h.domains@[i as int].incoming,
        ScriptRef::DomainOutgoing(i) => h.domains@[i as int].outgoing,
        ScriptRef::DomainInternal(i) => h.domains@[i as int].internal,
    }
}

fn script_of<'a>(h: &'a Hierarchy, r: ScriptRef) -> (s: &'a Script)
    requires
        match r {
            ScriptRef::DomainIncoming(i) => i < h.domains@.len(),
            ScriptRef::DomainOutgoing(i) => i < h.domains@.len(),
            ScriptRef::DomainInternal(i) => i < h.domains@.len(),
            _ => true,
        },
    ensures
        *s == script_of_spec(*h, r),
{
    match r {
        ScriptRef::Root => &h.root_filter,
        ScriptRef::Fallback => &h.fallback,
        ScriptRef::DomainIncoming(i) => &h.domains[i].incoming,
        ScriptRef::DomainOutgoing(i) => &h.domains[i].outgoing,
        ScriptRef::DomainInternal(i) => &h.domains[i].internal,
    }
}

proof fn lemma_script_batch_skip(entries: Seq<StageRules>, stage: ExecutionStage, i: int)
    requires
        0 <= i <= entries.len(),
        forall|j: int| 0 <= j < i ==> (#[trigger] entries[j]).stage != stage,
    ensures
        script_batch_from(entries, stage, 0) == script_batch_from(entries, stage, i),
    decreases i,
{
    if i > 0 {
        lemma_script_batch_skip(entries, stage, i - 1);
    }
}

/// The batch a script holds for a stage.
pub fn get_batch<'a>(s: &'a Script, stage: ExecutionStage) -> (r: Option<&'a Vec<Directive>>)
    ensures
        match r {
            Some(ds) => script_batch(*s, stage) == Some(ds@),
            None => script_batch(*s, stage) is None,
        },
{
    let mut i: usize = 0;
    while i < s.stages.len()
        invariant
            i <= s.stages@.len(),
            forall|j: int| 0 <= j < i ==> (#[trigger] s.stages@[j]).stage != stage,
        decreases s.stages@.len() - i,
    {
        if stage_eq(s.stages[i].stage, stage) {
            proof {
                lemma_script_batch_skip(s.stages@, stage, i as int);
            }
            return Some(&s.stages[i].directives);
        }
        i = i + 1;
    }
    proof {
        lemma_script_batch_skip(s.stages@, stage, s.stages@.len() as int);
    }
    None
}

fn stage_eq(a: ExecutionStage, b: ExecutionStage) -> (r: bool)
    ensures
        r == (a == b),
{
    match (a, b) {
        (ExecutionStage::Connect, ExecutionStage::Connect) => true,
        (ExecutionStage::Helo, ExecutionStage::Helo) => true,
        (ExecutionStage::Authenticate, ExecutionStage::Authenticate) => true,
        (ExecutionStage::MailFrom, ExecutionStage::MailFrom) => true,
        (ExecutionStage::RcptTo, ExecutionStage::RcptTo) => true,
        (ExecutionStage::PreQ, ExecutionStage::PreQ) => true,
        (ExecutionStage::PostQ, ExecutionStage::PostQ) => true,
        (ExecutionStage::Delivery, ExecutionStage::Delivery) => true,
        _ => false,
    }
}

/// The status running a stage settles on, given the hierarchy, the
/// context and the memoized status. An unusable context is refused; a
/// pending delegation or a memoized terminal status short-circuits; an
/// absent batch continues; otherwise the batch's status stands.
pub open spec fn stage_verdict(
    h: Hierarchy,
    ctx: MailContext,
    skipped: Option<Status>,
    stage: ExecutionStage,
) -> Status {
    match selection_spec(h, ctx, stage) {
        Err(()) => Status::Deny(ReplyOrCode::Code(CodeID::Denied)),
        Ok(sref) => if skipped is Some && skipped->0 is DelegationResult {
            Status::DelegationResult
        } else if skipped is Some && is_finished(skipped->0) {
            skipped->0
        } else {
            match script_batch(script_of_spec(h, sref), stage) {
                None => Status::Next,
                Some(ds) => batch_status(ds),
            }
        },
    }
}

/// How running a stage changes the memoized status. It is set, to the
/// terminal status of the batch, exactly when a batch ran and reached one;
/// every other path leaves it alone.
pub open spec fn skip_evolves(
    h: Hierarchy,
    ctx: MailContext,
    pre: Option<Status>,
    stage: ExecutionStage,
    post: Option<Status>,
) -> bool {
    match selection_spec(h, ctx, stage) {
        Err(()) => post == pre,
        Ok(sref) => if pre is Some && (pre->0 is DelegationResult || is_finished(pre->0)) {
            post == pre
        } else {
            match script_batch(script_of_spec(h, sref), stage) {
                None => post == pre,
                Some(ds) => if is_finished(batch_status(ds)) {
                    post is Some && same_status(post->0, batch_status(ds))
                } else {
                    post == pre
                },
            }
        },
    }
}

/// Runs the rules of one stage: the memoized terminal verdict short-circuits,
/// an unusable context denies, an absent batch continues, and a terminal
/// verdict of the batch is memoized for the stages that follow. A pending
/// delegation at a pre-queue stage is passed through untouched; resumption
/// at a post-queue stage goes through `resume_after_delegation` instead.
pub fn run_when(
    h: &Hierarchy,
    ctx: &MailContext,
    skipped: &mut Option<Status>,
    stage: ExecutionStage,
) -> (r: Status)
    requires
        !((*old(skipped)) is Some && (*old(skipped))->0 is DelegationResult && is_email_received(
            stage,
        )),
    ensures
        same_status(r, stage_verdict(*h, *ctx, *old(skipped), stage)),
        skip_evolves(*h, *ctx, *old(skipped), stage, *final(skipped)),
        selection_spec(*h, *ctx, stage) is Err ==> same_status(
            r,
            Status::Deny(ReplyOrCode::Code(CodeID::Denied)),
        ) && *final(skipped) == *old(skipped),
        selection_spec(*h, *ctx, stage) is Ok ==> ({
            let batch = script_batch(
                script_of_spec(*h, selection_spec(*h, *ctx, stage)->Ok_0),
                stage,
            );
            &&& ((*old(skipped)) is Some && (*old(skipped))->0 is DelegationResult ==> r
                is DelegationResult && *final(skipped) == *old(skipped))
            &&& ((*old(skipped)) is Some && is_finished((*old(skipped))->0) ==> same_status(
                r,
                (*old(skipped))->0,
            ) && *final(skipped) == *old(skipped))
            &&& (((*old(skipped)) is None || (!((*old(skipped))->0 is DelegationResult)
                && !is_finished((*old(skipped))->0))) ==> {
                &&& (batch is None ==> r is Next && *final(skipped) == *old(skipped))
                &&& (batch is Some ==> {
                    &&& same_status(r, batch_status(batch->0))
                    &&& (is_finished(batch_status(batch->0)) ==> (*final(skipped)) is Some
                        && same_status((*final(skipped))->0, batch_status(batch->0)))
                    &&& (!is_finished(batch_status(batch->0)) ==> *final(skipped) == *old(
                        skipped,
                    ))
                })
            })
        }),
{
    let sref = match get_directives_for_smtp_state(h, ctx, stage) {
        Err(()) => {
            return Status::Deny(ReplyOrCode::Code(CodeID::Denied));
        },
        Ok(sref) => sref,
    };
    match skipped {
        Some(s) => {
            if matches!(s, Status::DelegationResult) {
                return Status::DelegationResult;
            }
            if s.finished() {
                return s.duplicate();
            }
        },
        None => {},
    }
    let script = script_of(h, sref);
    let status = match get_batch(script, stage) {
        None => {
            return Status::Next;
        },
        Some(ds) => execute_directives(ds),
    };
    if status.finished() {
        *skipped = Some(status.duplicate());
    }
    status
}

proof fn lemma_find_iff_listed(entries: Seq<DomainDirectives>, d: Seq<u8>, i: int)
    requires
        0 <= i <= entries.len(),
    ensures
        (find_domain_from(entries, d, i) is Some) <==> exists|j: int|
            i <= j < entries.len() && (#[trigger] entries[j]).domain@ == d,
    decreases entries.len() - i,
{
    if i < entries.len() {
        lemma_find_iff_listed(entries, d, i + 1);
    }
}

/// A domain has an entry, exactly or through its parent chain, exactly when
/// the walk of `domain_handled` succeeds over the entry names.
pub proof fn lemma_lookup_iff_handled(entries: Seq<DomainDirectives>, d: Seq<u8>)
    ensures
        (domain_lookup_spec(entries, d) is Some) <==> crate::address::domain_handled(
            entries.map_values(|e: DomainDirectives| e.domain@),
            d,
        ),
    decreases d.len(),
{
    let names = entries.map_values(|e: DomainDirectives| e.domain@);
    lemma_find_iff_listed(entries, d, 0);
    assert((find_domain_from(entries, d, 0) is Some) <==> crate::address::domain_listed(
        names,
        d,
    )) by {
        if exists|j: int| 0 <= j < entries.len() && (#[trigger] entries[j]).domain@ == d {
            let j = choose|j: int| 0 <= j < entries.len() && (#[trigger] entries[j]).domain@ == d;
            assert(names[j] == d);
        }
        if crate::address::domain_listed(names, d) {
            let j = choose|j: int| 0 <= j < names.len() && names[j] == d;
            assert(entries[j].domain@ == d);
        }
    }
    match crate::address::parent_domain_spec(d) {
        Some(p) => {
            if p.len() < d.len() {
                lemma_lookup_iff_handled(entries, p);
            }
        },
        None => {},
    }
}

/// Classification closure at the queued stages: the script that the postq
/// (and delivery) selection invokes is the one the transaction type calls
/// for. A handled sender runs its domain's internal or outgoing script; a
/// foreign sender runs the incoming script of the handled recipient domain,
/// the root filter when no recipient domain is handled, and the null sender
/// always runs the root filter; a contradictory pairing falls back.
pub proof fn lemma_postq_script_matches_classification(h: Hierarchy, ctx: MailContext)
    requires
        ctx.reverse_path is Some,
        ctx.transaction_type is Some,
    ensures
        ({
            let sel = selection_spec(h, ctx, ExecutionStage::PostQ);
            let names = domain_names(h);
            let sh = sender_handled_spec(ctx, names);
            let txn = ctx.transaction_type->0;
            &&& (ctx.reverse_path->0 is None ==> sel == Ok::<ScriptRef, ()>(ScriptRef::Root))
            &&& (ctx.reverse_path->0 is Some && sh ==> match txn {
                TransactionType::Internal => sel matches Ok(ScriptRef::DomainInternal(_)),
                TransactionType::Outgoing { .. } => sel matches Ok(ScriptRef::DomainOutgoing(_)),
                TransactionType::Incoming { .. } => sel == Ok::<ScriptRef, ()>(
                    ScriptRef::Fallback,
                ),
            })
            &&& (ctx.reverse_path->0 is Some && !sh ==> match txn {
                TransactionType::Incoming { handled_domain: Some(d) } => if crate::address::domain_handled(
                    names,
                    d@,
                ) {
                    sel matches Ok(ScriptRef::DomainIncoming(_))
                } else {
                    sel == Ok::<ScriptRef, ()>(ScriptRef::Fallback)
                },
                TransactionType::Incoming { handled_domain: None } => sel == Ok::<ScriptRef, ()>(
                    ScriptRef::Root,
                ),
                _ => sel == Ok::<ScriptRef, ()>(ScriptRef::Fallback),
            })
        }),
{
    let names = domain_names(h);
    match ctx.reverse_path->0 {
        Some(a) => {
            lemma_lookup_iff_handled(h.domains@, a.domain@);
            assert(sender_handled_spec(ctx, names) == crate::address::domain_handled(
                names,
                a.domain@,
            ));
            match ctx.transaction_type->0 {
                TransactionType::Incoming { handled_domain: Some(d) } => {
                    lemma_lookup_iff_handled(h.domains@, d@);
                },
                _ => {},
            }
        },
        None => {},
    }
}

/// The point a delegation header leads back to: the stage that suspended,
/// the directive that delegated, and the message identifier.
pub struct DelegationInfo {
    pub stage: ExecutionStage,
    pub directive: Vec<u8>,
    pub uuid: u128,
}

/// The name under which each stage appears in the delegation header.
pub open spec fn stage_name(s: ExecutionStage) -> Seq<u8> {
    match s {
        ExecutionStage::Connect => "connect".spec_bytes(),
        ExecutionStage::Helo => "helo".spec_bytes(),
        ExecutionStage::Authenticate => "authenticate".spec_bytes(),
        ExecutionStage::MailFrom => "mail".spec_bytes(),
        ExecutionStage::RcptTo => "rcpt".spec_bytes(),
        ExecutionStage::PreQ => "preq".spec_bytes(),
        ExecutionStage::PostQ => "postq".spec_bytes(),
        ExecutionStage::Delivery => "delivery".spec_bytes(),
    }
}

use crate::reply::text_bytes;

/// Reads a stage from its name.
pub fn parse_stage_name(v: &Vec<u8>) -> (r: Option<ExecutionStage>)
    ensures
        r == stage_of_name(v@),
        match r {
            Some(st) => v@ == stage_name(st),
            None => forall|st: ExecutionStage| v@ != stage_name(st),
        },
{
    if bytes_eq(v, &text_bytes("connect")) {
        Some(ExecutionStage::Connect)
    } else if bytes_eq(v, &text_bytes("helo")) {
        Some(ExecutionStage::Helo)
    } else if bytes_eq(v, &text_bytes("authenticate")) {
        Some(ExecutionStage::Authenticate)
    } else if bytes_eq(v, &text_bytes("mail")) {
        Some(ExecutionStage::MailFrom)
    } else if bytes_eq(v, &text_bytes("rcpt")) {
        Some(ExecutionStage::RcptTo)
    } else if bytes_eq(v, &text_bytes("preq")) {
        Some(ExecutionStage::PreQ)
    } else if bytes_eq(v, &text_bytes("postq")) {
        Some(ExecutionStage::PostQ)
    } else if bytes_eq(v, &text_bytes("delivery")) {
        Some(ExecutionStage::Delivery)
    } else {
        proof {
            assert forall|st: ExecutionStage| v@ != stage_name(st) by {
                match st {
                    ExecutionStage::Connect => assert(v@ != stage_name(ExecutionStage::Connect)),
                    ExecutionStage::Helo => assert(v@ != stage_name(ExecutionStage::Helo)),
                    ExecutionStage::Authenticate => assert(v@ != stage_name(
                        ExecutionStage::Authenticate,
                    )),
                    ExecutionStage::MailFrom => assert(v@ != stage_name(ExecutionStage::MailFrom)),
                    ExecutionStage::RcptTo => assert(v@ != stage_name(ExecutionStage::RcptTo)),
                    ExecutionStage::PreQ => assert(v@ != stage_name(ExecutionStage::PreQ)),
                    ExecutionStage::PostQ => assert(v@ != stage_name(ExecutionStage::PostQ)),
                    ExecutionStage::Delivery => assert(v@ != stage_name(ExecutionStage::Delivery)),
                }
            }
        }
        None
    }
}

/// The ASCII hyphen that groups the hexadecimal digits of an identifier.
pub const UUID_DASH: u8 = 45;

/// The value of a hexadecimal digit, or nothing.
pub open spec fn hex_val(b: u8) -> Option<int> {
    if 48 <= b && b <= 57 {
        Some((b - 48) as int)
    } else if 97 <= b && b <= 102 {
        Some((b - 97 + 10) as int)
    } else if 65 <= b && b <= 70 {
        Some((b - 65 + 10) as int)
    } else {
        None
    }
}

/// The number read by scanning `s` from `i`, hyphens skipped, digits
/// accumulated most significant first; nothing on any other byte.
pub open spec fn uuid_accum(s: Seq<u8>, i: int, acc: int) -> Option<int>
    decreases s.len() - i,
{
    if i < 0 || i >= s.len() {
        Some(acc)
    } else if s[i] == UUID_DASH {
        uuid_accum(s, i + 1, acc)
    } else {
        match hex_val(s[i]) {
            Some(h) => uuid_accum(s, i + 1, acc * 16 + h),
            None => None,
        }
    }
}

fn hex_digit(b: u8) -> (r: Option<u8>)
    ensures
        match r {
            Some(h) => hex_val(b) == Some(h as int),
            None => hex_val(b) is None,
        },
{
    if 48 <= b && b <= 57 {
        Some(b - 48)
    } else if 97 <= b && b <= 102 {
        Some(b - 97 + 10)
    } else if 65 <= b && b <= 70 {
        Some(b - 65 + 10)
    } else {
        None
    }
}

/// A position carrying a group-separating hyphen in the canonical text of
/// an identifier.
pub open spec fn uuid_dash_position(i: int) -> bool {
    i == 8 || i == 13 || i == 18 || i == 23
}

/// The canonical text of an identifier: thirty-six bytes, hyphens exactly
/// at the four group breaks, hexadecimal digits everywhere else.
pub open spec fn uuid_wf(v: Seq<u8>) -> bool {
    &&& v.len() == 36
    &&& forall|i: int|
        0 <= i < 36 ==> (if uuid_dash_position(i) {
            v[i] == UUID_DASH
        } else {
            hex_val(#[trigger] v[i]) is Some
        })
}

/// Sixteen to the `n`.
pub open spec fn pow16(n: int) -> int
    decreases n,
{
    if n <= 0 {
        1
    } else {
        16 * pow16(n - 1)
    }
}

proof fn lemma_pow16_mono(a: int, b: int)
    requires
        0 <= a <= b,
    ensures
        pow16(a) <= pow16(b),
        pow16(a) >= 1,
    decreases b,
{
    if a < b {
        lemma_pow16_mono(a, b - 1);
    } else if a > 0 {
        lemma_pow16_mono(a - 1, a - 1);
    }
}

/// Reads an identifier in its canonical text form and only that form: the
/// five hyphen-separated groups of thirty-two hexadecimal digits.
pub fn parse_uuid(v: &Vec<u8>) -> (r: Option<u128>)
    ensures
        r is Some <==> uuid_wf(v@),
        match r {
            Some(u) => uuid_of(v@) == Some(u as int) && uuid_accum(v@, 0, 0) == Some(u as int),
            None => uuid_of(v@) is None,
        },
{
    if v.len() != 36 {
        return None;
    }
    let mut acc: u128 = 0;
    let mut i: usize = 0;
    let ghost mut digits: int = 0;
    while i < 36
        invariant
            i <= 36,
            v@.len() == 36,
            digits == i - (if i <= 8 {
                0int
            } else if i <= 13 {
                1
            } else if i <= 18 {
                2
            } else if i <= 23 {
                3
            } else {
                4
            }),
            0 <= digits <= 32,
            acc < pow16(digits),
            uuid_accum(v@, 0, 0) == uuid_accum(v@, i as int, acc as int),
            forall|j: int|
                0 <= j < i ==> (if uuid_dash_position(j) {
                    v@[j] == UUID_DASH
                } else {
                    hex_val(#[trigger] v@[j]) is Some
                }),
        decreases 36 - i,
    {
        if i == 8 || i == 13 || i == 18 || i == 23 {
            if v[i] != UUID_DASH {
                proof {
                    assert(!uuid_wf(v@));
                }
                return None;
            }
            i = i + 1;
        } else {
            match hex_digit(v[i]) {
                None => {
                    proof {
                        assert(!uuid_wf(v@));
                    }
                    return None;
                },
                Some(h) => {
                    proof {
                        lemma_pow16_mono(digits + 1, 32);
                        lemma_pow16_mono(32, 32);
                        reveal_with_fuel(pow16, 33);
                        assert(pow16(32) == 0x1_0000_0000_0000_0000_0000_0000_0000_0000);
                        assert(acc * 16 + h < pow16(digits + 1));
                    }
                    acc = acc * 16 + (h as u128);
                    proof {
                        digits = digits + 1;
                    }
                    i = i + 1;
                },
            }
        }
    }
    proof {
        assert(uuid_wf(v@));
    }
    Some(acc)
}

/// The ASCII semicolon separating the header's fields.
pub const SEMI: u8 = 59;
/// The ASCII equals sign separating a key from its value.
pub const EQ: u8 = 61;

/// Leading spaces of a header part taken off.
pub open spec fn ltrim_sp(s: Seq<u8>) -> Seq<u8>
    decreases s.len(),
{
    if s.len() > 0 && s[0] == 32 {
        ltrim_sp(s.drop_first())
    } else {
        s
    }
}

/// Trailing spaces of a header part taken off.
pub open spec fn rtrim_sp(s: Seq<u8>) -> Seq<u8>
    decreases s.len(),
{
    if s.len() > 0 && s[s.len() - 1] == 32 {
        rtrim_sp(s.drop_last())
    } else {
        s
    }
}

/// A header part with the spaces around it gone.
pub open spec fn trim_sp(s: Seq<u8>) -> Seq<u8> {
    rtrim_sp(ltrim_sp(s))
}

proof fn lemma_ltrim_sp_prefix(s: Seq<u8>, a: int)
    requires
        0 <= a <= s.len(),
        forall|j: int| 0 <= j < a ==> s[j] == 32,
    ensures
        ltrim_sp(s) == ltrim_sp(s.skip(a)),
    decreases a,
{
    if a > 0 {
        assert(s.drop_first() =~= s.skip(1));
        assert forall|j: int| 0 <= j < a - 1 implies #[trigger] s.skip(1)[j] == 32 by {
            assert(s.skip(1)[j] == s[j + 1]);
        }
        lemma_ltrim_sp_prefix(s.skip(1), a - 1);
        assert(s.skip(1).skip(a - 1) =~= s.skip(a));
    } else {
        assert(s.skip(0) =~= s);
    }
}

proof fn lemma_rtrim_sp_suffix(s: Seq<u8>, b: int)
    requires
        0 <= b <= s.len(),
        forall|j: int| b <= j < s.len() ==> s[j] == 32,
    ensures
        rtrim_sp(s) == rtrim_sp(s.take(b)),
    decreases s.len() - b,
{
    if b < s.len() {
        assert(s.drop_last() =~= s.take(s.len() - 1));
        assert forall|j: int| b <= j < s.len() - 1 implies #[trigger] s.take(s.len() - 1)[j]
            == 32 by {
            assert(s.take(s.len() - 1)[j] == s[j]);
        }
        lemma_rtrim_sp_suffix(s.take(s.len() - 1), b);
        assert(s.take(s.len() - 1).take(b) =~= s.take(b));
    } else {
        assert(s.take(s.len() as int) =~= s);
    }
}

fn trim_spaces(v: &Vec<u8>) -> (r: Vec<u8>)
    ensures
        r@ == trim_sp(v@),
{
    let mut a: usize = 0;
    while a < v.len() && v[a] == 32
        invariant
            a <= v@.len(),
            forall|j: int| 0 <= j < a ==> v@[j] == 32,
        decreases v@.len() - a,
    {
        a = a + 1;
    }
    let mut b: usize = v.len();
    while b > a && v[b - 1] == 32
        invariant
            a <= b <= v@.len(),
            forall|j: int| b <= j < v@.len() ==> v@[j] == 32,
        decreases b,
    {
        b = b - 1;
    }
    let mut out: Vec<u8> = Vec::new();
    let mut i: usize = a;
    while i < b
        invariant
            a <= i <= b <= v@.len(),
            out@ == v@.subrange(a as int, i as int),
        decreases b - i,
    {
        out.push(v[i]);
        i = i + 1;
        proof {
            assert(out@ =~= v@.subrange(a as int, i as int));
        }
    }
    proof {
        lemma_ltrim_sp_prefix(v@, a as int);
        let u = v@.skip(a as int);
        assert(ltrim_sp(u) == u) by {
            if u.len() > 0 {
                assert(u[0] == v@[a as int]);
            }
        }
        assert forall|j: int| b - a <= j < u.len() implies #[trigger] u[j] == 32 by {
            assert(u[j] == v@[a + j]);
        }
        lemma_rtrim_sp_suffix(u, b - a);
        let w = u.take(b - a);
        assert(rtrim_sp(w) == w) by {
            if w.len() > 0 {
                assert(w[w.len() - 1] == v@[b - 1]);
            }
        }
        assert(out@ =~= w);
    }
    out
}

/// The first occurrence of a byte from `i` on.
pub open spec fn first_sep(v: Seq<u8>, sep: u8, i: int) -> Option<int>
    decreases v.len() - i,
{
    if i < 0 || i >= v.len() {
        None
    } else if v[i] == sep {
        Some(i)
    } else {
        first_sep(v, sep, i + 1)
    }
}

pub(crate) proof fn lemma_first_sep_skip(v: Seq<u8>, sep: u8, i: int)
    requires
        0 <= i <= v.len(),
        forall|j: int| 0 <= j < i ==> v[j] != sep,
    ensures
        first_sep(v, sep, 0) == first_sep(v, sep, i),
    decreases i,
{
    if i > 0 {
        lemma_first_sep_skip(v, sep, i - 1);
    }
}

/// The separator-delimited decomposition of `v`: the pieces between
/// occurrences of `sep`, in order, the empty piece included.
pub open spec fn split_spec(v: Seq<u8>, sep: u8) -> Seq<Seq<u8>>
    decreases v.len(),
{
    match first_sep(v, sep, 0) {
        None => seq![v],
        Some(i) => if 0 <= i < v.len() {
            seq![v.subrange(0, i)] + split_spec(v.subrange(i + 1, v.len() as int), sep)
        } else {
            seq![v]
        },
    }
}

fn split_on(v: &Vec<u8>, sep: u8) -> (r: Vec<Vec<u8>>)
    ensures
        r@.map_values(|x: Vec<u8>| x@) == split_spec(v@, sep),
{
    let mut parts: Vec<Vec<u8>> = Vec::new();
    let mut base: usize = 0;
    proof {
        assert(v@.subrange(0, v@.len() as int) =~= v@);
        assert(parts@.map_values(|x: Vec<u8>| x@) =~= Seq::<Seq<u8>>::empty());
        assert(Seq::<Seq<u8>>::empty() + split_spec(v@, sep) =~~= split_spec(v@, sep));
    }
    loop
        invariant
            base <= v@.len(),
            split_spec(v@, sep) =~~= parts@.map_values(|x: Vec<u8>| x@) + split_spec(
                v@.subrange(base as int, v@.len() as int),
                sep,
            ),
        decreases v@.len() - base,
    {
        let mut j: usize = base;
        while j < v.len() && v[j] != sep
            invariant
                base <= j <= v@.len(),
                forall|k: int| base <= k < j ==> v@[k] != sep,
            decreases v@.len() - j,
        {
            j = j + 1;
        }
        let mut seg: Vec<u8> = Vec::new();
        let mut k: usize = base;
        while k < j
            invariant
                base <= k <= j <= v@.len(),
                seg@ == v@.subrange(base as int, k as int),
            decreases j - k,
        {
            seg.push(v[k]);
            k = k + 1;
            proof {
                assert(seg@ =~= v@.subrange(base as int, k as int));
            }
        }
        let ghost prev = parts@.map_values(|x: Vec<u8>| x@);
        let ghost suffix = v@.subrange(base as int, v@.len() as int);
        proof {
            assert forall|t: int| 0 <= t < j - base implies #[trigger] suffix[t] != sep by {
                assert(suffix[t] == v@[base + t]);
            }
            lemma_first_sep_skip(suffix, sep, j - base);
            assert(seg@ =~= suffix.subrange(0, j - base));
        }
        parts.push(seg);
        proof {
            assert(parts@.map_values(|x: Vec<u8>| x@) =~= prev.push(seg@));
        }
        if j == v.len() {
            proof {
                assert(first_sep(suffix, sep, 0) is None);
                assert(split_spec(suffix, sep) =~~= seq![seg@]) by {
                    assert(suffix =~= seg@);
                }
                assert(prev + split_spec(suffix, sep) =~~= prev.push(seg@));
                assert(split_spec(v@, sep) =~~= parts@.map_values(|x: Vec<u8>| x@));
            }
            return parts;
        }
        proof {
            assert(suffix[j - base] == sep);
            assert(first_sep(suffix, sep, 0) == Some(j - base));
            let tail = suffix.subrange(j - base + 1, suffix.len() as int);
            assert(tail =~= v@.subrange(j + 1, v@.len() as int));
            assert(split_spec(suffix, sep) =~~= seq![seg@] + split_spec(tail, sep));
            assert(prev + (seq![seg@] + split_spec(tail, sep)) =~~= prev.push(seg@) + split_spec(
                tail,
                sep,
            ));
            assert(split_spec(v@, sep) =~~= parts@.map_values(|x: Vec<u8>| x@) + split_spec(
                v@.subrange(j + 1, v@.len() as int),
                sep,
            ));
        }
        base = j + 1;
    }
}

fn split_kv(v: &Vec<u8>) -> (r: Option<(Vec<u8>, Vec<u8>)>)
    ensures
        match r {
            Some(kv) => first_sep(v@, EQ, 0) matches Some(i) && kv.0@ == v@.subrange(0, i)
                && kv.1@ == v@.subrange(i + 1, v@.len() as int),
            None => first_sep(v@, EQ, 0) is None,
        },
{
    let mut i: usize = 0;
    while i < v.len()
        invariant
            i <= v@.len(),
            forall|j: int| 0 <= j < i ==> v@[j] != EQ,
        decreases v@.len() - i,
    {
        if v[i] == EQ {
            proof {
                lemma_first_sep_skip(v@, EQ, i as int);
            }
            let mut key: Vec<u8> = Vec::new();
            let mut k: usize = 0;
            while k < i
                invariant
                    k <= i <= v@.len(),
                    key@ == v@.subrange(0, k as int),
                decreases i - k,
            {
                key.push(v[k]);
                k = k + 1;
                proof {
                    assert(key@ =~= v@.subrange(0, k as int));
                }
            }
            let mut val: Vec<u8> = Vec::new();
            let mut m: usize = i + 1;
            while m < v.len()
                invariant
                    i + 1 <= m <= v@.len(),
                    val@ == v@.subrange(i + 1, m as int),
                decreases v@.len() - m,
            {
                val.push(v[m]);
                m = m + 1;
                proof {
                    assert(val@ =~= v@.subrange(i + 1, m as int));
                }
            }
            return Some((key, val));
        }
        i = i + 1;
    }
    proof {
        lemma_first_sep_skip(v@, EQ, v@.len() as int);
    }
    None
}

/// The stage a name reads to, names tried in a fixed order.
pub open spec fn stage_of_name(v: Seq<u8>) -> Option<ExecutionStage> {
    if v == "connect".spec_bytes() {
        Some(ExecutionStage::Connect)
    } else if v == "helo".spec_bytes() {
        Some(ExecutionStage::Helo)
    } else if v == "authenticate".spec_bytes() {
        Some(ExecutionStage::Authenticate)
    } else if v == "mail".spec_bytes() {
        Some(ExecutionStage::MailFrom)
    } else if v == "rcpt".spec_bytes() {
        Some(ExecutionStage::RcptTo)
    } else if v == "preq".spec_bytes() {
        Some(ExecutionStage::PreQ)
    } else if v == "postq".spec_bytes() {
        Some(ExecutionStage::PostQ)
    } else if v == "delivery".spec_bytes() {
        Some(ExecutionStage::Delivery)
    } else {
        None
    }
}

/// The identifier a value reads to: the hexadecimal reading of its
/// canonical text form, and of nothing else.
pub open spec fn uuid_of(v: Seq<u8>) -> Option<int> {
    if uuid_wf(v) {
        uuid_accum(v, 0, 0)
    } else {
        None
    }
}

/// The key and value a header part carries: the part trimmed, split at its
/// first equals sign, both sides trimmed again.
pub open spec fn kv_of(part: Seq<u8>) -> Option<(Seq<u8>, Seq<u8>)> {
    let p = trim_sp(part);
    match first_sep(p, EQ, 0) {
        Some(i) => Some((trim_sp(p.subrange(0, i)), trim_sp(p.subrange(i + 1, p.len() as int)))),
        None => None,
    }
}

/// The delegation fields the parts settle on, first occurrence of each key
/// winning, scanning from part `i` with the fields found so far.
pub open spec fn fold_delegation(
    parts: Seq<Seq<u8>>,
    i: int,
    st: Option<ExecutionStage>,
    dir: Option<Seq<u8>>,
    id: Option<int>,
) -> (Option<ExecutionStage>, Option<Seq<u8>>, Option<int>)
    decreases parts.len() - i,
{
    if i < 0 || i >= parts.len() {
        (st, dir, id)
    } else {
        match kv_of(parts[i]) {
            None => fold_delegation(parts, i + 1, st, dir, id),
            Some(kv) => if kv.0 == "stage".spec_bytes() {
                fold_delegation(
                    parts,
                    i + 1,
                    if st is None {
                        stage_of_name(kv.1)
                    } else {
                        st
                    },
                    dir,
                    id,
                )
            } else if kv.0 == "directive".spec_bytes() {
                fold_delegation(
                    parts,
                    i + 1,
                    st,
                    if dir is None {
                        Some(kv.1)
                    } else {
                        dir
                    },
                    id,
                )
            } else if kv.0 == "id".spec_bytes() {
                fold_delegation(
                    parts,
                    i + 1,
                    st,
                    dir,
                    if id is None {
                        uuid_of(kv.1)
                    } else {
                        id
                    },
                )
            } else {
                fold_delegation(parts, i + 1, st, dir, id)
            },
        }
    }
}

/// The fields of the header as ghost values.
pub open spec fn delegation_fields(value: Seq<u8>) -> (
    Option<ExecutionStage>,
    Option<Seq<u8>>,
    Option<int>,
) {
    fold_delegation(split_spec(value, SEMI), 0, None, None, None)
}

/// Reads the delegation header value, of the shape
/// `stage=<s>; directive=<name>; id=<identifier>`: semicolon-separated
/// `key=value` parts, spaces around parts, keys and values ignored, the
/// first occurrence of each key winning. The header parses exactly when a
/// stage name, a directive name and a well-formed identifier are all
/// present, and the result carries exactly those fields.
pub fn parse_delegation_header(value: &Vec<u8>) -> (r: Option<DelegationInfo>)
    ensures
        ({
            let f = delegation_fields(value@);
            match r {
                Some(info) => {
                    &&& f.0 == Some(info.stage)
                    &&& (f.1 matches Some(d) && info.directive@ == d)
                    &&& f.2 == Some(info.uuid as int)
                },
                None => f.0 is None || f.1 is None || f.2 is None,
            }
        }),
{
    let parts = split_on(value, SEMI);
    let ghost partsv = parts@.map_values(|x: Vec<u8>| x@);
    let mut stage: Option<ExecutionStage> = None;
    let mut directive: Option<Vec<u8>> = None;
    let mut uuid: Option<u128> = None;
    let mut p: usize = 0;
    while p < parts.len()
        invariant
            p <= parts@.len(),
            partsv == parts@.map_values(|x: Vec<u8>| x@),
            partsv == split_spec(value@, SEMI),
            delegation_fields(value@) == fold_delegation(
                partsv,
                p as int,
                stage,
                match directive {
                    Some(d) => Some(d@),
                    None => None,
                },
                match uuid {
                    Some(u) => Some(u as int),
                    None => None,
                },
            ),
        decreases parts@.len() - p,
    {
        let part = trim_spaces(&parts[p]);
        proof {
            assert(part@ == trim_sp(partsv[p as int]));
        }
        match split_kv(&part) {
            None => {},
            Some((key, val)) => {
                let key = trim_spaces(&key);
                let val = trim_spaces(&val);
                proof {
                    assert(kv_of(partsv[p as int]) matches Some(kv) && kv.0 == key@ && kv.1
                        == val@);
                }
                if bytes_eq(&key, &text_bytes("stage")) {
                    if stage.is_none() {
                        stage = parse_stage_name(&val);
                    }
                } else if bytes_eq(&key, &text_bytes("directive")) {
                    if directive.is_none() {
                        directive = Some(val);
                    }
                } else if bytes_eq(&key, &text_bytes("id")) {
                    if uuid.is_none() {
                        uuid = parse_uuid(&val);
                    }
                }
            },
        }
        p = p + 1;
    }
    match (stage, directive, uuid) {
        (Some(stage), Some(directive), Some(uuid)) => Some(
            DelegationInfo { stage, directive, uuid },
        ),
        _ => None,
    }
}

/// The names of every directive of a script, over all its stages in
/// order, from entry `i` on.
pub open spec fn script_names_from(entries: Seq<StageRules>, i: int) -> Seq<Seq<u8>>
    decreases entries.len() - i,
{
    if i < 0 || i >= entries.len() {
        Seq::empty()
    } else {
        entries[i].directives@.map_values(|d: Directive| d.name@) + script_names_from(
            entries,
            i + 1,
        )
    }
}

/// The names of every directive of a script.
pub open spec fn script_names(s: Script) -> Seq<Seq<u8>> {
    script_names_from(s.stages@, 0)
}

/// No two names alike.
pub open spec fn names_distinct(names: Seq<Seq<u8>>) -> bool {
    forall|i: int, j: int| 0 <= i < j < names.len() ==> names[i] != names[j]
}

/// Every delegation directive sits at a stage where the message has
/// already been received and queued.
pub open spec fn delegates_placed(entries: Seq<StageRules>) -> bool {
    forall|k: int, j: int|
        0 <= k < entries.len() && 0 <= j < (#[trigger] entries[k]).directives@.len() && (
        #[trigger] entries[k].directives@[j]).kind == DirectiveKind::Delegate
            ==> is_email_received(entries[k].stage)
}

/// A script the engine would compile: directive names unique across all
/// its stages, and delegations only from the post-queue stages on.
pub open spec fn script_valid(s: Script) -> bool {
    names_distinct(script_names(s)) && delegates_placed(s.stages@)
}

/// Every script of the hierarchy is one the engine would compile.
pub open spec fn hierarchy_valid_spec(h: Hierarchy) -> bool {
    &&& script_valid(h.root_filter)
    &&& script_valid(h.fallback)
    &&& forall|d: int|
        0 <= d < h.domains@.len() ==> script_valid((#[trigger] h.domains@[d]).incoming)
            && script_valid(h.domains@[d].outgoing) && script_valid(h.domains@[d].internal)
}

fn is_email_received_exec(s: ExecutionStage) -> (r: bool)
    ensures
        r == is_email_received(s),
{
    match s {
        ExecutionStage::PostQ => true,
        ExecutionStage::Delivery => true,
        _ => false,
    }
}

fn collect_script_names(s: &Script) -> (r: Vec<Vec<u8>>)
    ensures
        r@.map_values(|n: Vec<u8>| n@) == script_names(*s),
{
    let mut names: Vec<Vec<u8>> = Vec::new();
    let mut i: usize = 0;
    proof {
        assert(names@.map_values(|n: Vec<u8>| n@) =~= Seq::<Seq<u8>>::empty());
        assert(Seq::<Seq<u8>>::empty() + script_names_from(s.stages@, 0) =~~= script_names_from(
            s.stages@,
            0,
        ));
    }
    while i < s.stages.len()
        invariant
            i <= s.stages@.len(),
            script_names(*s) =~~= names@.map_values(|n: Vec<u8>| n@) + script_names_from(
                s.stages@,
                i as int,
            ),
        decreases s.stages@.len() - i,
    {
        let ds = &s.stages[i].directives;
        let ghost before = names@.map_values(|n: Vec<u8>| n@);
        let mut j: usize = 0;
        while j < ds.len()
            invariant
                j <= ds@.len(),
                names@.map_values(|n: Vec<u8>| n@) =~= before + ds@.map_values(
                    |d: Directive| d.name@,
                ).subrange(0, j as int),
            decreases ds@.len() - j,
        {
            let ghost prev = names@.map_values(|n: Vec<u8>| n@);
            names.push(ds[j].name.clone());
            proof {
                assert(names@.map_values(|n: Vec<u8>| n@) =~= prev.push(ds@[j as int].name@));
                assert(ds@.map_values(|d: Directive| d.name@).subrange(0, j + 1) =~= ds@.map_values(
                    |d: Directive| d.name@,
                ).subrange(0, j as int).push(ds@[j as int].name@));
            }
            j = j + 1;
        }
        proof {
            assert(ds@.map_values(|d: Directive| d.name@).subrange(0, ds@.len() as int)
                =~= ds@.map_values(|d: Directive| d.name@));
            assert(script_names_from(s.stages@, i as int) =~~= ds@.map_values(
                |d: Directive| d.name@,
            ) + script_names_from(s.stages@, i + 1));
            assert((before + ds@.map_values(|d: Directive| d.name@)) + script_names_from(
                s.stages@,
                i + 1,
            ) =~~= before + (ds@.map_values(|d: Directive| d.name@) + script_names_from(
                s.stages@,
                i + 1,
            )));
        }
        i = i + 1;
    }
    proof {
        assert(script_names_from(s.stages@, s.stages@.len() as int) =~= Seq::<Seq<u8>>::empty());
        assert(names@.map_values(|n: Vec<u8>| n@) + Seq::<Seq<u8>>::empty() =~~= names@.map_values(
            |n: Vec<u8>| n@,
        ));
    }
    names
}

fn names_distinct_exec(names: &Vec<Vec<u8>>) -> (r: bool)
    ensures
        r == names_distinct(names@.map_values(|n: Vec<u8>| n@)),
{
    let ghost nv = names@.map_values(|n: Vec<u8>| n@);
    let mut i: usize = 0;
    while i < names.len()
        invariant
            i <= names@.len(),
            nv == names@.map_values(|n: Vec<u8>| n@),
            forall|a: int, b: int| 0 <= a < b < nv.len() && a < i ==> nv[a] != nv[b],
        decreases names@.len() - i,
    {
        let mut j: usize = i + 1;
        while j < names.len()
            invariant
                i < j <= names@.len(),
                i < names@.len(),
                nv == names@.map_values(|n: Vec<u8>| n@),
                forall|b: int| i < b < j ==> nv[i as int] != nv[b],
            decreases names@.len() - j,
        {
            if bytes_eq(&names[i], &names[j]) {
                proof {
                    assert(nv[i as int] == nv[j as int]);
                }
                return false;
            }
            j = j + 1;
        }
        i = i + 1;
    }
    true
}

fn delegates_placed_exec(entries: &Vec<StageRules>) -> (r: bool)
    ensures
        r == delegates_placed(entries@),
{
    let mut k: usize = 0;
    while k < entries.len()
        invariant
            k <= entries@.len(),
            forall|a: int, j: int|
                0 <= a < k && 0 <= j < (#[trigger] entries@[a]).directives@.len() && (
                #[trigger] entries@[a].directives@[j]).kind == DirectiveKind::Delegate
                    ==> is_email_received(entries@[a].stage),
        decreases entries@.len() - k,
    {
        let stage_ok = is_email_received_exec(entries[k].stage);
        if !stage_ok {
            let ds = &entries[k].directives;
            let mut j: usize = 0;
            while j < ds.len()
                invariant
                    j <= ds@.len(),
                    ds@ == entries@[k as int].directives@,
                    !is_email_received(entries@[k as int].stage),
                    k < entries@.len(),
                    forall|t: int|
                        0 <= t < j ==> (#[trigger] ds@[t]).kind != DirectiveKind::Delegate,
                decreases ds@.len() - j,
            {
                if matches!(ds[j].kind, DirectiveKind::Delegate) {
                    return false;
                }
                j = j + 1;
            }
        }
        k = k + 1;
    }
    true
}

fn script_valid_exec(s: &Script) -> (r: bool)
    ensures
        r == script_valid(*s),
{
    let names = collect_script_names(s);
    names_distinct_exec(&names) && delegates_placed_exec(&s.stages)
}

/// Whether the hierarchy is one the engine's compiler would accept: in
/// every script the directive names are unique across its stages, and
/// delegation directives stand only at the post-queue stages.
pub fn hierarchy_valid(h: &Hierarchy) -> (r: bool)
    ensures
        r == hierarchy_valid_spec(*h),
{
    if !script_valid_exec(&h.root_filter) {
        return false;
    }
    if !script_valid_exec(&h.fallback) {
        return false;
    }
    let mut d: usize = 0;
    while d < h.domains.len()
        invariant
            d <= h.domains@.len(),
            script_valid(h.root_filter),
            script_valid(h.fallback),
            forall|a: int|
                0 <= a < d ==> script_valid((#[trigger] h.domains@[a]).incoming) && script_valid(
                    h.domains@[a].outgoing,
                ) && script_valid(h.domains@[a].internal),
        decreases h.domains@.len() - d,
    {
        let entry = &h.domains[d];
        if !script_valid_exec(&entry.incoming) || !script_valid_exec(&entry.outgoing)
            || !script_valid_exec(&entry.internal) {
            return false;
        }
        d = d + 1;
    }
    true
}

/// Applies a resumed delegation to the context pulled back from the
/// delegated queue: the message identifier recorded in the header takes
/// over, the memoized verdict is cleared so that the remaining rules run,
/// and nothing else of the context moves.
pub fn apply_delegation_resumption(
    ctx: &mut MailContext,
    info: &DelegationInfo,
    skipped: &mut Option<Status>,
)
    requires
        old(ctx).wf(),
        crate::context::stage_index(old(ctx).stage) >= 2,
    ensures
        final(ctx).wf(),
        final(ctx).message_uuid == Some(info.uuid),
        (*final(skipped)) is None,
        final(ctx).stage == old(ctx).stage,
        final(ctx).reverse_path == old(ctx).reverse_path,
        final(ctx).forward_paths == old(ctx).forward_paths,
        final(ctx).transaction_type == old(ctx).transaction_type,
        final(ctx).helo == old(ctx).helo,
        final(ctx).using_esmtp == old(ctx).using_esmtp,
        final(ctx).dkim == old(ctx).dkim,
        final(ctx).retry == old(ctx).retry,
        old(ctx).same_connection(*final(ctx)),
{
    ctx.message_uuid = Some(info.uuid);
    *skipped = None;
}

/// First index of the directive with the given name, searching from `i`.
pub open spec fn directive_index_from(ds: Seq<Directive>, name: Seq<u8>, i: int) -> Option<int>
    decreases ds.len() - i,
{
    if i < 0 || i >= ds.len() {
        None
    } else if ds[i].name@ == name {
        Some(i)
    } else {
        directive_index_from(ds, name, i + 1)
    }
}

proof fn lemma_directive_index_skip(ds: Seq<Directive>, name: Seq<u8>, i: int)
    requires
        0 <= i <= ds.len(),
        forall|j: int| 0 <= j < i ==> (#[trigger] ds[j]).name@ != name,
    ensures
        directive_index_from(ds, name, 0) == directive_index_from(ds, name, i),
    decreases i,
{
    if i > 0 {
        lemma_directive_index_skip(ds, name, i - 1);
    }
}

/// Resumes rule evaluation after a delegation: in the stage that suspended,
/// exactly the directives after the delegating one run, none earlier. The
/// resumption is refused when the recorded stage does not match, when the
/// stage has no rules, or when no directive bears the recorded name.
pub fn resume_after_delegation(
    script: &Script,
    stage: ExecutionStage,
    info: &DelegationInfo,
) -> (r: Result<Status, ()>)
    ensures
        info.stage != stage ==> r is Err,
        r is Ok ==> {
            &&& info.stage == stage
            &&& script_batch(*script, stage) is Some
            &&& ({
                let ds = script_batch(*script, stage)->0;
                let pos = directive_index_from(ds, info.directive@, 0);
                &&& pos is Some
                &&& same_status(r->Ok_0, batch_status(ds.skip(pos->0 + 1)))
            })
        },
        r is Err ==> info.stage != stage || script_batch(*script, stage) is None
            || directive_index_from(script_batch(*script, stage)->0, info.directive@, 0) is None,
{
    if !stage_eq(info.stage, stage) {
        return Err(());
    }
    let ds = match get_batch(script, stage) {
        None => {
            return Err(());
        },
        Some(ds) => ds,
    };
    let mut i: usize = 0;
    while i < ds.len()
        invariant
            i <= ds@.len(),
            info.stage == stage,
            script_batch(*script, stage) == Some(ds@),
            forall|j: int| 0 <= j < i ==> (#[trigger] ds@[j]).name@ != info.directive@,
        decreases ds@.len() - i,
    {
        if bytes_eq(&ds[i].name, &info.directive) {
            proof {
                lemma_directive_index_skip(ds@, info.directive@, i as int);
            }
            let st = execute_directives_from(ds, i + 1);
            return Ok(st);
        }
        i = i + 1;
    }
    proof {
        lemma_directive_index_skip(ds@, info.directive@, ds@.len() as int);
    }
    Err(())
}

} // verus!
