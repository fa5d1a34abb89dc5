//! The per-connection SMTP session: command dispatch over the stage-typed
//! context, the configurable reply table, the soft and hard error budget,
//! and pipelined batches answered in order.

use vstd::prelude::*;
use vstd::string::StringSliceAdditionalSpecFns;
use crate::address::{Address, parse_address, GT, LT, SP};
use crate::codec::{CR, LF};
use crate::command::{Command, ProtocolError, Verb};
use crate::classify::{apply_rcpt, RcptSlot};
use crate::context::{MailContext, Stage};
use crate::reply::{
    append_bytes, default_code_number, default_reply, default_text, is_error_code, text_bytes,
    CodeID, Reply, reply_wf, same_reply,
};
use crate::rules::{run_when, ExecutionStage, Hierarchy, ReplyOrCode, Status};

verus! {

/// What a connection runs under: the server's name, the limits, the error
/// budget, the channel properties, the handled domains and their rules,
/// and the reply table overrides.
pub struct SessionConfig {
    pub server_name: Vec<u8>,
    pub rcpt_count_max: usize,
    /// Errors before replies are delayed; negative disables the delay.
    pub soft_count: i64,
    /// Errors before the connection is closed; negative disables the cap.
    pub hard_count: i64,
    pub delay_ms: u64,
    pub message_size_limit: usize,
    pub tls_available: bool,
    pub auth_enabled: bool,
    /// Whether mechanisms unsafe on a clear channel may still be offered.
    pub auth_dangerous_in_clear: bool,
    /// The SASL mechanisms offered, in announcement order.
    pub auth_mechanisms: Vec<Vec<u8>>,
    pub handled_domains: Vec<Vec<u8>>,
    pub hierarchy: Hierarchy,
    /// Entries that replace the standard replies of the code table.
    pub codes: Vec<(CodeID, Reply)>,
}

/// First override for a code, if one is configured.
pub open spec fn override_from(codes: Seq<(CodeID, Reply)>, code: CodeID, i: int) -> Option<int>
    decreases codes.len() - i,
{
    if i < 0 || i >= codes.len() {
        None
    } else if codes[i].0 == code {
        Some(i)
    } else {
        override_from(codes, code, i + 1)
    }
}

/// The number a code answers with, overrides considered.
pub open spec fn table_code_spec(cfg: SessionConfig, code: CodeID) -> u16 {
    match override_from(cfg.codes@, code, 0) {
        Some(i) => cfg.codes@[i].1.code,
        None => default_code_number(code),
    }
}

/// The text lines a code answers with, overrides considered.
pub open spec fn table_reply_lines(cfg: SessionConfig, code: CodeID) -> Seq<Seq<u8>> {
    match override_from(cfg.codes@, code, 0) {
        Some(i) => cfg.codes@[i].1.lines@.map_values(|l: Vec<u8>| l@),
        None => seq![default_text(code, cfg.server_name@)],
    }
}

/// `rep` is the table's reply for `code`, code and text.
pub open spec fn is_table_reply(cfg: SessionConfig, code: CodeID, rep: Reply) -> bool {
    rep.code == table_code_spec(cfg, code) && rep.lines@.map_values(|l: Vec<u8>| l@)
        == table_reply_lines(cfg, code)
}

/// The hard error budget still has room.
pub open spec fn below_hard_cap(pre: Session) -> bool {
    !(pre.config.hard_count >= 0 && pre.errors >= pre.config.hard_count)
}

/// The transition carries exactly the reply `code`/`lines`, except that an
/// error reply once the hard budget is spent goes out extended: the same
/// lines followed by the too-many-errors footer, under its code.
pub open spec fn reply_delivered(
    pre: Session,
    r: Transition,
    code: u16,
    lines: Seq<Seq<u8>>,
) -> bool {
    &&& r.reply is Some
    &&& ((below_hard_cap(pre) || !is_error_code(code)) ==> r.reply->0.code == code && r.reply
        ->0.lines@.map_values(|l: Vec<u8>| l@) == lines)
    &&& ((!below_hard_cap(pre) && is_error_code(code)) ==> r.reply->0.code == table_code_spec(
        pre.config,
        CodeID::TooManyError,
    ) && r.reply->0.lines@.map_values(|l: Vec<u8>| l@) == lines + table_reply_lines(
        pre.config,
        CodeID::TooManyError,
    ))
}

/// The code a rule's reply choice resolves to: the table entry for a named
/// code, the custom reply itself when it can be rendered, the denied-table
/// entry when it cannot.
pub open spec fn resolved_code(cfg: SessionConfig, e: ReplyOrCode) -> u16 {
    match e {
        ReplyOrCode::Code(c) => table_code_spec(cfg, c),
        ReplyOrCode::Custom(c) => if reply_wf(c) {
            c.code
        } else {
            table_code_spec(cfg, CodeID::Denied)
        },
    }
}

/// The text lines a rule's reply choice resolves to.
pub open spec fn resolved_lines(cfg: SessionConfig, e: ReplyOrCode) -> Seq<Seq<u8>> {
    match e {
        ReplyOrCode::Code(c) => table_reply_lines(cfg, c),
        ReplyOrCode::Custom(c) => if reply_wf(c) {
            c.lines@.map_values(|l: Vec<u8>| l@)
        } else {
            table_reply_lines(cfg, CodeID::Denied)
        },
    }
}

/// The transition answers with the table's reply for `code`, through the
/// error budget.
pub open spec fn table_reply_sent(pre: Session, r: Transition, code: CodeID) -> bool {
    reply_delivered(pre, r, table_code_spec(pre.config, code), table_reply_lines(pre.config, code))
}

/// A refusal: the table's reply for `code` through the budget and, below
/// the hard cap, the connection stays open.
pub open spec fn table_refusal_sent(pre: Session, r: Transition, code: CodeID) -> bool {
    table_reply_sent(pre, r, code) && (below_hard_cap(pre) ==> !r.close)
}

/// The transition answers with the resolution of a rule's reply choice,
/// through the error budget.
pub open spec fn verdict_reply_sent(pre: Session, r: Transition, e: ReplyOrCode) -> bool {
    reply_delivered(pre, r, resolved_code(pre.config, e), resolved_lines(pre.config, e))
}

/// The step touched neither the transaction nor the channel state.
pub open spec fn untouched(pre: Session, post: Session) -> bool {
    &&& post.ctx == pre.ctx
    &&& post.internal == pre.internal
    &&& post.skipped == pre.skipped
    &&& post.secured == pre.secured
}

impl SessionConfig {
    /// Usable overrides: every configured reply can be rendered, and an
    /// override keeps the error class of the entry it replaces.
    pub open spec fn wf(self) -> bool {
        &&& self.message_size_limit > 0
        &&& forall|i: int| 0 <= i < self.codes@.len() ==> reply_wf((#[trigger] self.codes@[i]).1)
        &&& forall|i: int|
            0 <= i < self.codes@.len() ==> is_error_code((#[trigger] self.codes@[i]).1.code)
                == is_error_code(default_code_number(self.codes@[i].0))
    }
}

proof fn lemma_override_bounds(codes: Seq<(CodeID, Reply)>, code: CodeID, i: int)
    ensures
        override_from(codes, code, i) matches Some(k) ==> i <= k < codes.len() && codes[k].0
            == code,
    decreases codes.len() - i,
{
    if 0 <= i < codes.len() {
        lemma_override_bounds(codes, code, i + 1);
    }
}

/// An override never changes whether a table entry is an error reply.
pub proof fn lemma_table_code_error_class(cfg: SessionConfig, code: CodeID)
    requires
        cfg.wf(),
    ensures
        is_error_code(table_code_spec(cfg, code)) == is_error_code(default_code_number(code)),
{
    lemma_override_bounds(cfg.codes@, code, 0);
}

proof fn lemma_override_skip(codes: Seq<(CodeID, Reply)>, code: CodeID, i: int)
    requires
        0 <= i <= codes.len(),
        forall|j: int| 0 <= j < i ==> (#[trigger] codes[j]).0 != code,
    ensures
        override_from(codes, code, 0) == override_from(codes, code, i),
    decreases i,
{
    if i > 0 {
        lemma_override_skip(codes, code, i - 1);
    }
}

fn code_id_eq(a: CodeID, b: CodeID) -> (r: bool)
    ensures
        r == (a == b),
{
    match (a, b) {
        (CodeID::Greetings, CodeID::Greetings) => true,
        (CodeID::Helo, CodeID::Helo) => true,
        (CodeID::EhloPlain, CodeID::EhloPlain) => true,
        (CodeID::EhloSecured, CodeID::EhloSecured) => true,
        (CodeID::Okay, CodeID::Okay) => true,
        (CodeID::DataStart, CodeID::DataStart) => true,
        (CodeID::Closing, CodeID::Closing) => true,
        (CodeID::Help, CodeID::Help) => true,
        (CodeID::Denied, CodeID::Denied) => true,
        (CodeID::Unrecognized, CodeID::Unrecognized) => true,
        (CodeID::Unimplemented, CodeID::Unimplemented) => true,
        (CodeID::SyntaxArgs, CodeID::SyntaxArgs) => true,
        (CodeID::BadSequence, CodeID::BadSequence) => true,
        (CodeID::TooManyRecipients, CodeID::TooManyRecipients) => true,
        (CodeID::TooManyError, CodeID::TooManyError) => true,
        (CodeID::Timeout, CodeID::Timeout) => true,
        (CodeID::TlsGoAhead, CodeID::TlsGoAhead) => true,
        (CodeID::TlsNotAvailable, CodeID::TlsNotAvailable) => true,
        (CodeID::AuthSucceeded, CodeID::AuthSucceeded) => true,
        (CodeID::AuthFailed, CodeID::AuthFailed) => true,
        (CodeID::AuthRequired, CodeID::AuthRequired) => true,
        (CodeID::MessageTooLong, CodeID::MessageTooLong) => true,
        (CodeID::DeliveryError, CodeID::DeliveryError) => true,
        _ => false,
    }
}

/// The reply a code answers with: the configured override where one
/// exists, the standard reply otherwise.
pub fn reply_in_config(cfg: &SessionConfig, code: CodeID) -> (r: Reply)
    requires
        cfg.wf(),
    ensures
        r.code == table_code_spec(*cfg, code),
        reply_wf(r),
        is_table_reply(*cfg, code, r),
        override_from(cfg.codes@, code, 0) is None ==> r.lines@.len() == 1 && r.lines@[0]@
            == default_text(code, cfg.server_name@),
        override_from(cfg.codes@, code, 0) matches Some(i) ==> same_reply(r, cfg.codes@[i].1),
{
    let mut i: usize = 0;
    while i < cfg.codes.len()
        invariant
            i <= cfg.codes@.len(),
            cfg.wf(),
            forall|j: int| 0 <= j < i ==> (#[trigger] cfg.codes@[j]).0 != code,
        decreases cfg.codes@.len() - i,
    {
        if code_id_eq(cfg.codes[i].0, code) {
            proof {
                lemma_override_skip(cfg.codes@, code, i as int);
            }
            return cfg.codes[i].1.duplicate();
        }
        i = i + 1;
    }
    proof {
        lemma_override_skip(cfg.codes@, code, cfg.codes@.len() as int);
    }
    let r = default_reply(code, &cfg.server_name);
    proof {
        assert(200 <= r.code <= 599);
        assert(r.lines@.map_values(|l: Vec<u8>| l@) =~= seq![
            default_text(code, cfg.server_name@),
        ]);
    }
    r
}

/// What one step of the session asks of its driver: the reply to write, if
/// any, whether to pause before writing it, and whether to close
/// afterwards.
pub struct Transition {
    pub reply: Option<Reply>,
    pub close: bool,
    pub delay: bool,
}

/// The state of one connection.
pub struct Session {
    pub config: SessionConfig,
    pub ctx: MailContext,
    /// The second context of a transaction split by an internal recipient.
    pub internal: Option<MailContext>,
    /// The memoized terminal filter verdict.
    pub skipped: Option<Status>,
    /// How many 4xx and 5xx replies this connection has been sent.
    pub errors: u64,
    pub closed: bool,
    pub secured: bool,
}

impl Session {
    /// A usable session: the context is stage-typed, the split context, if
    /// present, stands at the RcptTo stage with its classification fixed,
    /// and no delegation result is pending at the connection.
    pub open spec fn wf(self) -> bool {
        &&& self.config.wf()
        &&& self.ctx.wf()
        &&& self.ctx.stage != Stage::Finished
        &&& (self.internal matches Some(i) ==> i.wf() && i.stage == Stage::RcptTo
            && i.transaction_type is Some)
        &&& !(self.skipped matches Some(s) && s is DelegationResult)
    }

    /// A fresh session for an accepted connection.
    pub fn accept(config: SessionConfig, timestamp: u64, connection_uuid: u128) -> (r: Session)
        requires
            config.wf(),
        ensures
            r.wf(),
            r.ctx.stage == Stage::Connect,
            r.errors == 0,
            !r.closed,
            !r.secured,
    {
        let server_name = config.server_name.clone();
        Session {
            config,
            ctx: MailContext::connect(server_name, timestamp, connection_uuid),
            internal: None,
            skipped: None,
            errors: 0,
            closed: false,
            secured: false,
        }
    }
}

/// The protocol's stage edges: what a single command may do to the context
/// stage. Any command may leave it alone; HELO, EHLO and RSET reset it;
/// MAIL FROM and RCPT TO advance it along the fixed order.
pub open spec fn stage_edge(a: Stage, b: Stage, v: Verb) -> bool {
    ||| b == a
    ||| (v == Verb::Helo || v == Verb::Ehlo) && b == Stage::Helo
    ||| v == Verb::MailFrom && a == Stage::Helo && b == Stage::MailFrom
    ||| v == Verb::RcptTo && (a == Stage::MailFrom || a == Stage::RcptTo) && b == Stage::RcptTo
    ||| v == Verb::Rset && (b == Stage::Helo || b == Stage::Connect)
}

/// The code an accepting verdict answers with: its own resolution when
/// that is a success code, the okay-table entry otherwise, since an
/// accept always answers with a success reply.
pub open spec fn accept_code(cfg: SessionConfig, e: ReplyOrCode) -> u16 {
    if is_error_code(resolved_code(cfg, e)) {
        table_code_spec(cfg, CodeID::Okay)
    } else {
        resolved_code(cfg, e)
    }
}

/// The text an accepting verdict answers with.
pub open spec fn accept_lines(cfg: SessionConfig, e: ReplyOrCode) -> Seq<Seq<u8>> {
    if is_error_code(resolved_code(cfg, e)) {
        table_reply_lines(cfg, CodeID::Okay)
    } else {
        resolved_lines(cfg, e)
    }
}

/// Reply choices equal in content resolve to the same reply.
proof fn lemma_resolved_same(cfg: SessionConfig, a: ReplyOrCode, b: ReplyOrCode)
    requires
        crate::rules::same_reply_or_code(a, b),
    ensures
        resolved_code(cfg, a) == resolved_code(cfg, b),
        resolved_lines(cfg, a) == resolved_lines(cfg, b),
{
    match (a, b) {
        (ReplyOrCode::Custom(x), ReplyOrCode::Custom(y)) => {
            assert(x.lines@.map_values(|l: Vec<u8>| l@).len() == y.lines@.map_values(
                |l: Vec<u8>| l@,
            ).len());
            assert(reply_wf(x) == reply_wf(y));
        },
        _ => {},
    }
}

fn accept_reply_of(cfg: &SessionConfig, e: &ReplyOrCode) -> (rep: Reply)
    requires
        cfg.wf(),
    ensures
        reply_wf(rep),
        rep.code == accept_code(*cfg, *e),
        rep.lines@.map_values(|l: Vec<u8>| l@) == accept_lines(*cfg, *e),
        !is_error_code(rep.code),
{
    let rep = resolve_reply(cfg, e);
    if is_error_code_exec(rep.code) {
        let ok = reply_in_config(cfg, CodeID::Okay);
        proof {
            lemma_table_code_error_class(*cfg, CodeID::Okay);
        }
        ok
    } else {
        rep
    }
}

fn resolve_reply(cfg: &SessionConfig, e: &ReplyOrCode) -> (r: Reply)
    requires
        cfg.wf(),
    ensures
        reply_wf(r),
        r.code == resolved_code(*cfg, *e),
        r.lines@.map_values(|l: Vec<u8>| l@) == resolved_lines(*cfg, *e),
{
    match e {
        ReplyOrCode::Code(c) => reply_in_config(cfg, *c),
        ReplyOrCode::Custom(rep) => {
            if 200 <= rep.code && rep.code <= 599 && rep.lines.len() > 0 {
                let d = rep.duplicate();
                proof {
                    assert(d.lines@.map_values(|l: Vec<u8>| l@) =~= rep.lines@.map_values(
                        |l: Vec<u8>| l@,
                    ));
                }
                d
            } else {
                reply_in_config(cfg, CodeID::Denied)
            }
        },
    }
}

/// One trailing CRLF taken off an argument.
pub open spec fn strip_crlf_spec(s: Seq<u8>) -> Seq<u8> {
    if s.len() >= 2 && s[s.len() - 2] == CR && s[s.len() - 1] == LF {
        s.subrange(0, s.len() - 2)
    } else {
        s
    }
}

/// Leading spaces taken off.
pub open spec fn ltrim_spec(s: Seq<u8>) -> Seq<u8>
    decreases s.len(),
{
    if s.len() > 0 && s[0] == SP {
        ltrim_spec(s.drop_first())
    } else {
        s
    }
}

/// Trailing spaces taken off.
pub open spec fn rtrim_spec(s: Seq<u8>) -> Seq<u8>
    decreases s.len(),
{
    if s.len() > 0 && s[s.len() - 1] == SP {
        rtrim_spec(s.drop_last())
    } else {
        s
    }
}

/// An argument as the parsers see it: the trailing CRLF and the spaces
/// around it gone.
pub open spec fn trim_spec(s: Seq<u8>) -> Seq<u8> {
    rtrim_spec(ltrim_spec(strip_crlf_spec(s)))
}

proof fn lemma_ltrim_prefix(s: Seq<u8>, a: int)
    requires
        0 <= a <= s.len(),
        forall|j: int| 0 <= j < a ==> s[j] == SP,
    ensures
        ltrim_spec(s) == ltrim_spec(s.skip(a)),
    decreases a,
{
    if a > 0 {
        assert(s[0] == SP);
        assert(s.drop_first() =~= s.skip(1));
        assert forall|j: int| 0 <= j < a - 1 implies #[trigger] s.skip(1)[j] == SP by {
            assert(s.skip(1)[j] == s[j + 1]);
        }
        lemma_ltrim_prefix(s.skip(1), a - 1);
        assert(s.skip(1).skip(a - 1) =~= s.skip(a));
    } else {
        assert(s.skip(0) =~= s);
    }
}

proof fn lemma_rtrim_suffix(s: Seq<u8>, b: int)
    requires
        0 <= b <= s.len(),
        forall|j: int| b <= j < s.len() ==> s[j] == SP,
    ensures
        rtrim_spec(s) == rtrim_spec(s.take(b)),
    decreases s.len() - b,
{
    if b < s.len() {
        assert(s[s.len() - 1] == SP);
        assert(s.drop_last() =~= s.take(s.len() - 1));
        assert forall|j: int| b <= j < s.len() - 1 implies #[trigger] s.take(s.len() - 1)[j]
            == SP by {
            assert(s.take(s.len() - 1)[j] == s[j]);
        }
        lemma_rtrim_suffix(s.take(s.len() - 1), b);
        assert(s.take(s.len() - 1).take(b) =~= s.take(b));
    } else {
        assert(s.take(s.len() as int) =~= s);
    }
}

/// Strips one trailing CRLF and the surrounding spaces off an argument.
fn trim_argument(args: &Vec<u8>) -> (r: Vec<u8>)
    ensures
        r@ == trim_spec(args@),
{
    let mut end: usize = args.len();
    if end >= 2 && args[end - 2] == CR && args[end - 1] == LF {
        end = end - 2;
    }
    let ghost t = strip_crlf_spec(args@);
    proof {
        assert(t =~= args@.subrange(0, end as int));
    }
    let mut a: usize = 0;
    while a < end && args[a] == SP
        invariant
            a <= end <= args@.len(),
            forall|j: int| 0 <= j < a ==> args@[j] == SP,
        decreases end - a,
    {
        a = a + 1;
    }
    let mut b: usize = end;
    while b > a && args[b - 1] == SP
        invariant
            a <= b <= end <= args@.len(),
            forall|j: int| b <= j < end ==> args@[j] == SP,
        decreases b,
    {
        b = b - 1;
    }
    let mut out: Vec<u8> = Vec::new();
    let mut i: usize = a;
    while i < b
        invariant
            a <= i <= b <= end <= args@.len(),
            out@ == args@.subrange(a as int, i as int),
        decreases b - i,
    {
        out.push(args[i]);
        i = i + 1;
        proof {
            assert(out@ =~= args@.subrange(a as int, i as int));
        }
    }
    proof {
        assert forall|j: int| 0 <= j < a implies t[j] == SP by {
            assert(t[j] == args@[j]);
        }
        lemma_ltrim_prefix(t, a as int);
        let u = t.skip(a as int);
        assert(ltrim_spec(u) == u) by {
            if u.len() > 0 {
                assert(u[0] == args@[a as int]);
            }
        }
        assert forall|j: int| b - a <= j < u.len() implies u[j] == SP by {
            assert(u[j] == args@[a + j]);
        }
        lemma_rtrim_suffix(u, b - a);
        let w = u.take(b - a);
        assert(rtrim_spec(w) == w) by {
            if w.len() > 0 {
                assert(w[w.len() - 1] == args@[b - 1]);
            }
        }
        assert(out@ =~= w);
    }
    out
}

/// The angle brackets of an envelope path taken off.
pub open spec fn strip_angles_spec(t: Seq<u8>) -> Seq<u8> {
    if t.len() >= 2 && t[0] == LT && t[t.len() - 1] == GT {
        t.subrange(1, t.len() - 1)
    } else {
        t
    }
}

/// The envelope path an argument parses to: after trimming and unwrapping
/// the angle brackets, the empty path is the null sender (allowed only
/// where stated), and anything else must be an address.
pub open spec fn path_arg_spec(args: Seq<u8>, allow_null: bool) -> Result<
    Option<(Seq<u8>, Seq<u8>)>,
    (),
> {
    let inner = strip_angles_spec(trim_spec(args));
    if inner.len() == 0 {
        if allow_null {
            Ok(None)
        } else {
            Err(())
        }
    } else {
        match crate::address::parse_address_spec(inner) {
            Some(p) => Ok(Some(p)),
            None => Err(()),
        }
    }
}

/// Reads an envelope path argument: an address in angle brackets, or the
/// null path `<>` where the null sender is allowed.
fn parse_path_argument(args: &Vec<u8>, allow_null: bool) -> (r: Result<
    Option<Address>,
    ProtocolError,
>)
    ensures
        match r {
            Ok(Some(a)) => a.wf() && (path_arg_spec(args@, allow_null) matches Ok(Some(p))
                && a.local@ == p.0 && a.domain@ == p.1),
            Ok(None) => allow_null && path_arg_spec(args@, allow_null) == Ok::<
                Option<(Seq<u8>, Seq<u8>)>,
                (),
            >(None),
            Err(_) => path_arg_spec(args@, allow_null) is Err,
        },
{
    let trimmed = trim_argument(args);
    let n = trimmed.len();
    let path = if n >= 2 && trimmed[0] == LT && trimmed[n - 1] == GT {
        let mut stripped: Vec<u8> = Vec::new();
        let mut i: usize = 1;
        while i < n - 1
            invariant
                1 <= i <= n - 1,
                n == trimmed@.len(),
                n >= 2,
                stripped@ == trimmed@.subrange(1, i as int),
            decreases n - 1 - i,
        {
            stripped.push(trimmed[i]);
            i = i + 1;
            proof {
                assert(stripped@ =~= trimmed@.subrange(1, i as int));
            }
        }
        stripped
    } else {
        trimmed
    };
    proof {
        assert(path@ =~= strip_angles_spec(trim_spec(args@)));
    }
    if path.len() == 0 {
        if allow_null {
            return Ok(None);
        }
        return Err(ProtocolError::ParsingError);
    }
    match parse_address(&path) {
        Ok(a) => Ok(Some(a)),
        Err(e) => Err(e),
    }
}

impl Session {
    fn record_reply(&mut self, reply: Reply, close: bool) -> (r: Transition)
        requires
            old(self).config.wf(),
            reply_wf(reply),
        ensures
            final(self).config == old(self).config,
            final(self).ctx == old(self).ctx,
            final(self).internal == old(self).internal,
            final(self).skipped == old(self).skipped,
            final(self).secured == old(self).secured,
            r.reply is Some,
            reply_wf(r.reply->0),
            is_error_code(reply.code) ==> final(self).errors == (if old(self).errors < u64::MAX {
                (old(self).errors + 1) as u64
            } else {
                old(self).errors
            }),
            !is_error_code(reply.code) ==> final(self).errors == old(self).errors && r.reply->0
                == reply && r.close == close && !r.delay,
            is_error_code(reply.code) && old(self).config.hard_count >= 0 && old(self).errors
                >= old(self).config.hard_count ==> {
                &&& r.close
                &&& final(self).closed
                &&& r.reply->0.code == table_code_spec(old(self).config, CodeID::TooManyError)
                &&& r.reply->0.lines@.len() >= 2
            },
            is_error_code(reply.code) && !(old(self).config.hard_count >= 0 && old(self).errors
                >= old(self).config.hard_count) ==> {
                &&& r.reply->0 == reply
                &&& r.close == close
                &&& (r.delay <==> (old(self).config.soft_count >= 0 && old(self).errors + 1 > old(self).config.soft_count))
            },
            final(self).closed == (old(self).closed || r.close),
            is_error_code(r.reply->0.code) == is_error_code(reply.code),
            reply_delivered(*old(self), r, reply.code, reply.lines@.map_values(|l: Vec<u8>| l@)),
    {
        if !is_error_code_exec(reply.code) {
            if close {
                self.closed = true;
            }
            return Transition { reply: Some(reply), close, delay: false };
        }
        let over_hard = self.config.hard_count >= 0 && self.errors >= self.config.hard_count
            as u64;
        if self.errors < u64::MAX {
            self.errors = self.errors + 1;
        }
        if over_hard {
            let footer = reply_in_config(&self.config, CodeID::TooManyError);
            let extended = reply.extended(&footer);
            self.closed = true;
            proof {
                assert(extended.lines@.len() >= 2);
                assert(200 <= extended.code <= 599);
                lemma_table_code_error_class(self.config, CodeID::TooManyError);
                assert(extended.lines@.map_values(|l: Vec<u8>| l@) =~= reply.lines@.map_values(
                    |l: Vec<u8>| l@,
                ) + footer.lines@.map_values(|l: Vec<u8>| l@)) by {
                    let ev = extended.lines@.map_values(|l: Vec<u8>| l@);
                    let rv = reply.lines@.map_values(|l: Vec<u8>| l@);
                    let fv = footer.lines@.map_values(|l: Vec<u8>| l@);
                    assert forall|i: int| 0 <= i < ev.len() implies ev[i] == (rv + fv)[i] by {
                        if i < rv.len() {
                            assert(extended.lines@[i]@ == reply.lines@[i]@);
                        } else {
                            let j = i - rv.len();
                            assert(extended.lines@[reply.lines@.len() + j]@ == footer.lines@[j]@);
                        }
                    }
                }
            }
            return Transition { reply: Some(extended), close: true, delay: false };
        }
        let delay = self.config.soft_count >= 0 && self.errors > self.config.soft_count as u64;
        if close {
            self.closed = true;
        }
        Transition { reply: Some(reply), close, delay }
    }
}

fn is_error_code_exec(code: u16) -> (r: bool)
    ensures
        r == is_error_code(code),
{
    code >= 400
}

/// Whether the AUTH extension may be offered: enabled, and either the
/// channel is secured or unsafe mechanisms are allowed in the clear.
pub open spec fn auth_offered(cfg: SessionConfig, secured: bool) -> bool {
    cfg.auth_enabled && (secured || cfg.auth_dangerous_in_clear)
}

/// The configured mechanisms from `i` on, each preceded by one space.
pub open spec fn mech_list_from(mechs: Seq<Seq<u8>>, i: int) -> Seq<u8>
    decreases mechs.len() - i,
{
    if i < 0 || i >= mechs.len() {
        Seq::empty()
    } else {
        seq![32u8] + mechs[i] + mech_list_from(mechs, i + 1)
    }
}

/// The AUTH line of the banner: the keyword followed by the configured
/// mechanisms in announcement order.
pub open spec fn auth_line_spec(mechs: Seq<Seq<u8>>) -> Seq<u8> {
    "AUTH".spec_bytes() + mech_list_from(mechs, 0)
}

/// The EHLO banner: the server name first, then exactly the supported
/// extensions: STARTTLS where TLS is configured and the channel is not yet
/// secured, AUTH with the configured mechanisms where enabled and safe for
/// the channel, then 8BITMIME, SMTPUTF8 and PIPELINING.
pub open spec fn ehlo_banner_spec(cfg: SessionConfig, secured: bool) -> Seq<Seq<u8>> {
    seq![cfg.server_name@] + (if cfg.tls_available && !secured {
        seq!["STARTTLS".spec_bytes()]
    } else {
        Seq::<Seq<u8>>::empty()
    }) + (if auth_offered(cfg, secured) {
        seq![auth_line_spec(cfg.auth_mechanisms@.map_values(|m: Vec<u8>| m@))]
    } else {
        Seq::<Seq<u8>>::empty()
    }) + seq!["8BITMIME".spec_bytes(), "SMTPUTF8".spec_bytes(), "PIPELINING".spec_bytes()]
}

fn auth_line(cfg: &SessionConfig) -> (r: Vec<u8>)
    ensures
        r@ == auth_line_spec(cfg.auth_mechanisms@.map_values(|m: Vec<u8>| m@)),
{
    let ghost mv = cfg.auth_mechanisms@.map_values(|m: Vec<u8>| m@);
    let mut line = text_bytes("AUTH");
    let mut i: usize = 0;
    proof {
        assert(auth_line_spec(mv) =~= line@ + mech_list_from(mv, 0));
    }
    while i < cfg.auth_mechanisms.len()
        invariant
            i <= mv.len(),
            mv == cfg.auth_mechanisms@.map_values(|m: Vec<u8>| m@),
            auth_line_spec(mv) =~= line@ + mech_list_from(mv, i as int),
        decreases mv.len() - i,
    {
        let ghost before = line@;
        line.push(32);
        append_bytes(&mut line, &cfg.auth_mechanisms[i]);
        proof {
            assert(line@ =~= before + (seq![32u8] + mv[i as int]));
            assert(mech_list_from(mv, i as int) =~= (seq![32u8] + mv[i as int]) + mech_list_from(
                mv,
                i + 1,
            ));
            assert(auth_line_spec(mv) =~= line@ + mech_list_from(mv, i + 1));
        }
        i = i + 1;
    }
    proof {
        assert(mech_list_from(mv, mv.len() as int) =~= Seq::<u8>::empty());
        assert(line@ + Seq::<u8>::empty() =~= line@);
    }
    line
}

fn ehlo_reply(cfg: &SessionConfig, secured: bool) -> (r: Reply)
    requires
        cfg.wf(),
    ensures
        reply_wf(r),
        r.code == 250,
        !is_error_code(r.code),
        r.lines@.map_values(|l: Vec<u8>| l@) == ehlo_banner_spec(*cfg, secured),
{
    let mut lines: Vec<Vec<u8>> = Vec::new();
    lines.push(cfg.server_name.clone());
    if cfg.tls_available && !secured {
        lines.push(text_bytes("STARTTLS"));
    }
    if cfg.auth_enabled && (secured || cfg.auth_dangerous_in_clear) {
        lines.push(auth_line(cfg));
    }
    lines.push(text_bytes("8BITMIME"));
    lines.push(text_bytes("SMTPUTF8"));
    lines.push(text_bytes("PIPELINING"));
    let r = Reply { code: 250, lines };
    proof {
        assert(r.lines@.map_values(|l: Vec<u8>| l@) =~= ehlo_banner_spec(*cfg, secured));
    }
    r
}

/// The unimplemented verbs recognized inside an unknown line.
pub open spec fn unknown_reply_code(line: Seq<u8>) -> CodeID {
    if crate::command::verb_matches(line, Verb::Unknown) && (matches_word(
        line,
        "VRFY".spec_bytes(),
    ) || matches_word(line, "EXPN".spec_bytes()) || matches_word(line, "TURN".spec_bytes())) {
        CodeID::Unimplemented
    } else {
        CodeID::Unrecognized
    }
}

/// Case-insensitive prefix match of a word.
pub open spec fn matches_word(line: Seq<u8>, word: Seq<u8>) -> bool {
    line.len() >= word.len() && forall|i: int|
        0 <= i < word.len() ==> crate::command::upper_spec(line[i]) == word[i]
}

fn matches_word_exec(line: &Vec<u8>, word: &Vec<u8>) -> (r: bool)
    ensures
        r == matches_word(line@, word@),
{
    if line.len() < word.len() {
        return false;
    }
    let mut i: usize = 0;
    while i < word.len()
        invariant
            i <= word@.len() <= line@.len(),
            forall|j: int| 0 <= j < i ==> crate::command::upper_spec(line@[j]) == word@[j],
        decreases word@.len() - i,
    {
        let b = line[i];
        let u = if 97 <= b && b <= 122 {
            b - 32
        } else {
            b
        };
        if u != word[i] {
            return false;
        }
        i = i + 1;
    }
    true
}

/// Whether a transition answers with an error reply.
pub open spec fn errored(r: Transition) -> bool {
    r.reply is Some && is_error_code(r.reply->0.code)
}

/// The error budget and bookkeeping every reply passes through: each 4xx
/// or 5xx reply is counted; at the hard cap the reply gains the
/// too-many-errors footer and the connection closes; past the soft cap the
/// reply is delayed.
pub open spec fn budget_ok(pre: Session, post: Session, r: Transition) -> bool {
    &&& (errored(r) ==> post.errors == (if pre.errors < u64::MAX {
        (pre.errors + 1) as u64
    } else {
        pre.errors
    }))
    &&& (!errored(r) ==> post.errors == pre.errors && !r.delay)
    &&& (errored(r) && pre.config.hard_count >= 0 && pre.errors >= pre.config.hard_count ==> {
        &&& r.close
        &&& r.reply->0.code == table_code_spec(pre.config, CodeID::TooManyError)
        &&& r.reply->0.lines@.len() >= 2
    })
    &&& (errored(r) && !(pre.config.hard_count >= 0 && pre.errors >= pre.config.hard_count)
        ==> (r.delay <==> (pre.config.soft_count >= 0 && pre.errors + 1
        > pre.config.soft_count)))
    &&& post.closed == (pre.closed || r.close)
    &&& post.config == pre.config
}

/// The HELO/EHLO step: an empty name is a syntax error; otherwise the
/// Helo-stage rules decide, a denial leaves everything untouched and
/// closes, and anything else records the announcement, drops any
/// transaction in progress, and answers with the accept's reply or the
/// stage's own: the okay-table text for HELO, the full banner for EHLO.
pub open spec fn helo_step(pre: Session, post: Session, cmd: Command, esmtp: bool, r: Transition) -> bool {
    let name = trim_spec(cmd.args@);
    let v = crate::rules::stage_verdict(
        pre.config.hierarchy,
        pre.ctx,
        pre.skipped,
        ExecutionStage::Helo,
    );
    &&& (name.len() == 0 ==> untouched(pre, post) && table_refusal_sent(pre, r, CodeID::SyntaxArgs))
    &&& (name.len() > 0 ==> {
        &&& crate::rules::skip_evolves(
            pre.config.hierarchy,
            pre.ctx,
            pre.skipped,
            ExecutionStage::Helo,
            post.skipped,
        )
        &&& post.secured == pre.secured
        &&& (v matches Status::Deny(e) ==> post.ctx == pre.ctx && post.internal == pre.internal
            && verdict_reply_sent(pre, r, e) && r.close)
        &&& (!(v is Deny) ==> {
            &&& post.ctx.stage == Stage::Helo
            &&& (post.ctx.helo matches Some(n) && n@ == name)
            &&& post.ctx.using_esmtp == esmtp
            &&& post.ctx.reverse_path is None
            &&& post.ctx.forward_paths@.len() == 0
            &&& post.ctx.transaction_type is None
            &&& post.internal is None
            &&& pre.ctx.same_connection(post.ctx)
            &&& !errored(r) && !r.close
            &&& match v {
                Status::Accept(e) => reply_delivered(
                    pre,
                    r,
                    accept_code(pre.config, e),
                    accept_lines(pre.config, e),
                ),
                Status::Faccept(e) => reply_delivered(
                    pre,
                    r,
                    accept_code(pre.config, e),
                    accept_lines(pre.config, e),
                ),
                _ => if esmtp {
                    r.reply is Some && r.reply->0.code == 250 && r.reply->0.lines@.map_values(
                        |l: Vec<u8>| l@,
                    ) == ehlo_banner_spec(pre.config, pre.secured)
                } else {
                    table_reply_sent(pre, r, CodeID::Helo)
                },
            }
        })
    })
}

/// The context a parsed MAIL FROM advances to: the MailFrom stage, the
/// parsed reverse path (the null sender for an empty path), a fresh
/// message identifier, nothing else changed.
pub open spec fn advanced_mail_from(
    c: MailContext,
    pre_ctx: MailContext,
    rp: Option<(Seq<u8>, Seq<u8>)>,
) -> bool {
    &&& c.stage == Stage::MailFrom
    &&& pre_ctx.same_connection(c)
    &&& c.helo == pre_ctx.helo
    &&& c.using_esmtp == pre_ctx.using_esmtp
    &&& c.forward_paths@.len() == 0
    &&& c.transaction_type is None
    &&& c.message_uuid is Some
    &&& match rp {
        None => c.reverse_path matches Some(None),
        Some(p) => c.reverse_path matches Some(Some(a)) && a.local@ == p.0 && a.domain@ == p.1,
    }
}

/// The MAIL FROM step: ill-sequenced commands and unparsable paths refuse
/// without touching the transaction; a parsed path advances the context,
/// the MailFrom rules run over the advanced context, a denial restores the
/// context and closes, and anything else keeps the advance and answers.
pub open spec fn mail_from_step(pre: Session, post: Session, cmd: Command, r: Transition) -> bool {
    &&& (pre.ctx.stage != Stage::Helo ==> untouched(pre, post) && table_refusal_sent(
        pre,
        r,
        CodeID::BadSequence,
    ))
    &&& (pre.ctx.stage == Stage::Helo ==> match path_arg_spec(cmd.args@, true) {
        Err(_) => untouched(pre, post) && table_refusal_sent(pre, r, CodeID::SyntaxArgs),
        Ok(rp) => {
            &&& post.secured == pre.secured
            &&& exists|c: MailContext|
                {
                    &&& #[trigger] advanced_mail_from(c, pre.ctx, rp)
                    &&& crate::rules::skip_evolves(
                        pre.config.hierarchy,
                        c,
                        pre.skipped,
                        ExecutionStage::MailFrom,
                        post.skipped,
                    )
                    &&& ({
                        let v = crate::rules::stage_verdict(
                            pre.config.hierarchy,
                            c,
                            pre.skipped,
                            ExecutionStage::MailFrom,
                        );
                        &&& (v matches Status::Deny(e) ==> post.ctx == pre.ctx && post.internal
                            == pre.internal && verdict_reply_sent(pre, r, e) && r.close)
                        &&& (!(v is Deny) ==> {
                            &&& post.ctx == c
                            &&& post.internal == pre.internal
                            &&& !errored(r) && !r.close
                            &&& match v {
                                Status::Accept(e) => reply_delivered(
                                    pre,
                                    r,
                                    accept_code(pre.config, e),
                                    accept_lines(pre.config, e),
                                ),
                                Status::Faccept(e) => reply_delivered(
                                    pre,
                                    r,
                                    accept_code(pre.config, e),
                                    accept_lines(pre.config, e),
                                ),
                                _ => table_reply_sent(pre, r, CodeID::Okay),
                            }
                        })
                    })
                }
        },
    })
}

/// The classification one recipient domain gives the transaction.
pub open spec fn rcpt_class_of(pre: Session, domain: Seq<u8>) -> crate::classify::RcptClass {
    let domains = pre.config.handled_domains@.map_values(|x: Vec<u8>| x@);
    crate::classify::classify_spec(
        crate::classify::sender_handled_spec(pre.ctx, domains),
        crate::address::domain_handled(domains, domain),
        crate::classify::reverse_domain_spec(pre.ctx) == Some(domain),
    )
}

/// The context the RCPT TO rules run over: for an internal recipient the
/// split context, grown by the recipient; for any other class the primary
/// context, grown by the recipient and carrying the classification.
pub open spec fn rcpt_slot_shape(
    pre: Session,
    slot: MailContext,
    class: crate::classify::RcptClass,
    local: Seq<u8>,
    domain: Seq<u8>,
) -> bool {
    &&& slot.stage == Stage::RcptTo
    &&& slot.forward_paths@.len() > 0
    &&& slot.forward_paths@.last().address.local@ == local
    &&& slot.forward_paths@.last().address.domain@ == domain
    &&& slot.forward_paths@.last().status is Waiting
    &&& match class {
        crate::classify::RcptClass::Internal => {
            &&& slot.transaction_type == Some(crate::context::TransactionType::Internal)
            &&& slot.forward_paths@.len() == (if pre.internal is Some {
                pre.internal->0.forward_paths@.len() + 1
            } else {
                1
            })
        },
        crate::classify::RcptClass::Outgoing => {
            &&& slot.forward_paths@.len() == pre.ctx.forward_paths@.len() + 1
            &&& (slot.transaction_type matches Some(
                crate::context::TransactionType::Outgoing { domain: d },
            ) && Some(d@) == crate::classify::reverse_domain_spec(pre.ctx))
        },
        crate::classify::RcptClass::IncomingHandled => {
            &&& slot.forward_paths@.len() == pre.ctx.forward_paths@.len() + 1
            &&& (slot.transaction_type matches Some(
                crate::context::TransactionType::Incoming { handled_domain: Some(d) },
            ) && d@ == domain)
        },
        crate::classify::RcptClass::IncomingForeign => {
            &&& slot.forward_paths@.len() == pre.ctx.forward_paths@.len() + 1
            &&& slot.transaction_type == Some(
                crate::context::TransactionType::Incoming { handled_domain: None },
            )
        },
    }
}

/// The RCPT TO step: ill-sequenced commands, the recipient cap and
/// unparsable paths refuse without touching the transaction; a parsed path
/// is classified and added to its slot, the RcptTo rules run over that
/// slot, a denial restores the transaction and closes, and anything else
/// keeps the recipient and answers.
pub open spec fn rcpt_step(pre: Session, post: Session, cmd: Command, r: Transition) -> bool {
    let stage_ok = pre.ctx.stage == Stage::MailFrom || pre.ctx.stage == Stage::RcptTo;
    &&& (!stage_ok ==> untouched(pre, post) && table_refusal_sent(pre, r, CodeID::BadSequence))
    &&& (stage_ok && pre.ctx.forward_paths@.len() >= pre.config.rcpt_count_max ==> untouched(
        pre,
        post,
    ) && table_refusal_sent(pre, r, CodeID::TooManyRecipients))
    &&& (stage_ok && pre.ctx.forward_paths@.len() < pre.config.rcpt_count_max ==> match
        path_arg_spec(cmd.args@, false) {
        Err(_) => untouched(pre, post) && table_refusal_sent(pre, r, CodeID::SyntaxArgs),
        Ok(None) => untouched(pre, post) && table_refusal_sent(pre, r, CodeID::SyntaxArgs),
        Ok(Some(p)) => {
            let class = rcpt_class_of(pre, p.1);
            &&& post.secured == pre.secured
            &&& exists|slot: MailContext|
                {
                    &&& #[trigger] rcpt_slot_shape(pre, slot, class, p.0, p.1)
                    &&& crate::rules::skip_evolves(
                        pre.config.hierarchy,
                        slot,
                        pre.skipped,
                        ExecutionStage::RcptTo,
                        post.skipped,
                    )
                    &&& ({
                        let v = crate::rules::stage_verdict(
                            pre.config.hierarchy,
                            slot,
                            pre.skipped,
                            ExecutionStage::RcptTo,
                        );
                        &&& (v matches Status::Deny(e) ==> {
                            &&& post.ctx.stage == pre.ctx.stage
                            &&& post.ctx.forward_paths@.len() == pre.ctx.forward_paths@.len()
                            &&& (post.internal is Some <==> pre.internal is Some)
                            &&& verdict_reply_sent(pre, r, e)
                            &&& r.close
                        })
                        &&& (!(v is Deny) ==> {
                            &&& !errored(r) && !r.close
                            &&& (class == crate::classify::RcptClass::Internal ==> post.internal
                                == Some(slot) && post.ctx.forward_paths@.len()
                                == pre.ctx.forward_paths@.len() && (post.ctx.transaction_type
                                matches Some(crate::context::TransactionType::Outgoing { .. })))
                            &&& (class != crate::classify::RcptClass::Internal ==> post.ctx
                                == slot && post.internal == pre.internal)
                            &&& match v {
                                Status::Accept(e) => reply_delivered(
                                    pre,
                                    r,
                                    accept_code(pre.config, e),
                                    accept_lines(pre.config, e),
                                ),
                                Status::Faccept(e) => reply_delivered(
                                    pre,
                                    r,
                                    accept_code(pre.config, e),
                                    accept_lines(pre.config, e),
                                ),
                                _ => table_reply_sent(pre, r, CodeID::Okay),
                            }
                        })
                    })
                }
        },
    })
}

/// The DATA step: legal only with a recipient on one of the two contexts;
/// it changes nothing and asks the client for the message.
pub open spec fn data_step(pre: Session, post: Session, r: Transition) -> bool {
    &&& untouched(pre, post)
    &&& (!(pre.ctx.stage == Stage::RcptTo || pre.internal is Some) ==> table_refusal_sent(
        pre,
        r,
        CodeID::BadSequence,
    ))
    &&& ((pre.ctx.stage == Stage::RcptTo || pre.internal is Some) ==> table_reply_sent(
        pre,
        r,
        CodeID::DataStart,
    ) && !r.close)
}

/// The RSET step: the mail transaction and the split context are dropped,
/// the announcement and the channel are kept, and the reply is the
/// okay-table entry.
pub open spec fn rset_step(pre: Session, post: Session, r: Transition) -> bool {
    &&& table_reply_sent(pre, r, CodeID::Okay)
    &&& !errored(r) && !r.close
    &&& post.ctx.stage == (if pre.ctx.helo is Some {
        Stage::Helo
    } else {
        Stage::Connect
    })
    &&& post.ctx.helo == pre.ctx.helo
    &&& post.ctx.reverse_path is None
    &&& post.ctx.message_uuid is None
    &&& post.ctx.forward_paths@.len() == 0
    &&& post.ctx.transaction_type is None
    &&& post.internal is None
    &&& post.skipped == pre.skipped
    &&& post.secured == pre.secured
    &&& pre.ctx.same_connection(post.ctx)
}

/// The step for an unknown line: the unimplemented verbs answer 502-table,
/// everything else the unrecognized-table entry; nothing is touched.
pub open spec fn unknown_step(pre: Session, post: Session, cmd: Command, r: Transition) -> bool {
    &&& untouched(pre, post)
    &&& table_refusal_sent(pre, r, unknown_reply_code(cmd.args@))
}

/// The STARTTLS step: refused in sequence once secured, unavailable
/// without TLS material, otherwise the go-ahead; the handshake itself is
/// the driver's and reported through its own entry point.
pub open spec fn starttls_step(pre: Session, post: Session, r: Transition) -> bool {
    &&& untouched(pre, post)
    &&& (pre.secured ==> table_refusal_sent(pre, r, CodeID::BadSequence))
    &&& (!pre.secured && !pre.config.tls_available ==> table_refusal_sent(
        pre,
        r,
        CodeID::TlsNotAvailable,
    ))
    &&& (!pre.secured && pre.config.tls_available ==> table_reply_sent(pre, r, CodeID::TlsGoAhead)
        && !errored(r) && !r.close)
}

/// The AUTH step: without the extension the command is unimplemented; with
/// it the session waits for the driver's SASL exchange and owes no reply
/// yet.
pub open spec fn auth_step(pre: Session, post: Session, r: Transition) -> bool {
    &&& (pre.config.auth_enabled ==> post == pre && r.reply is None && !r.close && !r.delay)
    &&& (!pre.config.auth_enabled ==> untouched(pre, post) && table_refusal_sent(
        pre,
        r,
        CodeID::Unimplemented,
    ))
}

/// The QUIT step: the closing reply, and the connection ends.
pub open spec fn quit_step(pre: Session, post: Session, r: Transition) -> bool {
    &&& untouched(pre, post)
    &&& table_reply_sent(pre, r, CodeID::Closing)
    &&& r.close
}

/// The NOOP step.
pub open spec fn noop_step(pre: Session, post: Session, r: Transition) -> bool {
    &&& untouched(pre, post)
    &&& table_reply_sent(pre, r, CodeID::Okay)
    &&& !errored(r) && !r.close
}

/// The HELP step.
pub open spec fn help_step(pre: Session, post: Session, r: Transition) -> bool {
    &&& untouched(pre, post)
    &&& table_reply_sent(pre, r, CodeID::Help)
    &&& !r.close
}

/// The greeting step: the connect-stage rules decide; a denial refuses
/// the client and closes, an accept answers with its reply, and anything
/// else answers with the service-ready greeting. The context stands as it
/// was.
pub open spec fn accept_greeting_step(pre: Session, post: Session, r: Transition) -> bool {
    let v = crate::rules::stage_verdict(
        pre.config.hierarchy,
        pre.ctx,
        pre.skipped,
        ExecutionStage::Connect,
    );
    &&& post.ctx == pre.ctx
    &&& post.internal == pre.internal
    &&& post.secured == pre.secured
    &&& crate::rules::skip_evolves(
        pre.config.hierarchy,
        pre.ctx,
        pre.skipped,
        ExecutionStage::Connect,
        post.skipped,
    )
    &&& (v matches Status::Deny(e) ==> verdict_reply_sent(pre, r, e) && r.close)
    &&& (v matches Status::Accept(e) ==> reply_delivered(
        pre,
        r,
        accept_code(pre.config, e),
        accept_lines(pre.config, e),
    ) && !r.close)
    &&& (v matches Status::Faccept(e) ==> reply_delivered(
        pre,
        r,
        accept_code(pre.config, e),
        accept_lines(pre.config, e),
    ) && !r.close)
    &&& (!(v is Deny) && !(v is Accept) && !(v is Faccept) ==> table_reply_sent(
        pre,
        r,
        CodeID::Greetings,
    ) && !r.close)
}

/// One dispatched command: the budget holds, the stage moves only along
/// the protocol edges and only on a successful reply, and the verb's own
/// step contract holds.
pub open spec fn command_step(pre: Session, post: Session, cmd: Command, r: Transition) -> bool {
    &&& budget_ok(pre, post, r)
    &&& stage_edge(pre.ctx.stage, post.ctx.stage, cmd.verb)
    &&& (post.ctx.stage != pre.ctx.stage ==> !errored(r) && !r.close)
    &&& match cmd.verb {
        Verb::Helo => helo_step(pre, post, cmd, false, r),
        Verb::Ehlo => helo_step(pre, post, cmd, true, r),
        Verb::MailFrom => mail_from_step(pre, post, cmd, r),
        Verb::RcptTo => rcpt_step(pre, post, cmd, r),
        Verb::Data => data_step(pre, post, r),
        Verb::Quit => quit_step(pre, post, r),
        Verb::Rset => rset_step(pre, post, r),
        Verb::Noop => noop_step(pre, post, r),
        Verb::Help => help_step(pre, post, r),
        Verb::StartTls => starttls_step(pre, post, r),
        Verb::Auth => auth_step(pre, post, r),
        Verb::Unknown => unknown_step(pre, post, cmd, r),
    }
}

/// One line that could not be framed or parsed: the unrecognized-table
/// reply, through the budget, nothing touched.
pub open spec fn bad_line_step(pre: Session, post: Session, r: Transition) -> bool {
    &&& budget_ok(pre, post, r)
    &&& untouched(pre, post)
    &&& table_refusal_sent(pre, r, CodeID::Unrecognized)
    &&& post.ctx.stage == pre.ctx.stage
}

impl Session {
    fn on_helo(&mut self, cmd: &Command, esmtp: bool) -> (r: Transition)
        requires
            old(self).wf(),
            !old(self).closed,
        ensures
            final(self).wf(),
            budget_ok(*old(self), *final(self), r),
            helo_step(*old(self), *final(self), *cmd, esmtp, r),
            final(self).ctx.stage == old(self).ctx.stage || final(self).ctx.stage == Stage::Helo,
            final(self).ctx.stage != old(self).ctx.stage ==> !errored(r) && !r.close,
    {
        let name = trim_argument(&cmd.args);
        if name.len() == 0 {
            let rep = reply_in_config(&self.config, CodeID::SyntaxArgs);
            proof {
                lemma_table_code_error_class(self.config, CodeID::SyntaxArgs);
            }
            return self.record_reply(rep, false);
        }
        let status = run_when(
            &self.config.hierarchy,
            &self.ctx,
            &mut self.skipped,
            ExecutionStage::Helo,
        );
        proof {
            if self.skipped is Some && self.skipped->0 is DelegationResult {
                assert(false);
            }
        }
        let ghost v = crate::rules::stage_verdict(
            old(self).config.hierarchy,
            old(self).ctx,
            old(self).skipped,
            ExecutionStage::Helo,
        );
        match status {
            Status::Deny(e) => {
                let rep = resolve_reply(&self.config, &e);
                proof {
                    lemma_resolved_same(self.config, e, v->Deny_0);
                }
                self.record_reply(rep, true)
            },
            Status::Accept(e) => {
                self.ctx.set_helo(name, esmtp);
                self.internal = None;
                let rep = accept_reply_of(&self.config, &e);
                proof {
                    lemma_resolved_same(self.config, e, v->Accept_0);
                }
                self.record_reply(rep, false)
            },
            Status::Faccept(e) => {
                self.ctx.set_helo(name, esmtp);
                self.internal = None;
                let rep = accept_reply_of(&self.config, &e);
                proof {
                    lemma_resolved_same(self.config, e, v->Faccept_0);
                }
                self.record_reply(rep, false)
            },
            _ => {
                self.ctx.set_helo(name, esmtp);
                self.internal = None;
                let rep = if esmtp {
                    ehlo_reply(&self.config, self.secured)
                } else {
                    let rep = reply_in_config(&self.config, CodeID::Helo);
                    proof {
                        lemma_table_code_error_class(self.config, CodeID::Helo);
                    }
                    rep
                };
                self.record_reply(rep, false)
            },
        }
    }

    #[verifier::rlimit(100)]
    fn on_mail_from(&mut self, cmd: &Command) -> (r: Transition)
        requires
            old(self).wf(),
            !old(self).closed,
        ensures
            final(self).wf(),
            budget_ok(*old(self), *final(self), r),
            mail_from_step(*old(self), *final(self), *cmd, r),
            final(self).ctx.stage == old(self).ctx.stage || (old(self).ctx.stage == Stage::Helo
                && final(self).ctx.stage == Stage::MailFrom),
            final(self).ctx.stage != old(self).ctx.stage ==> !errored(r) && !r.close,
    {
        if !matches!(self.ctx.stage, Stage::Helo) {
            let rep = reply_in_config(&self.config, CodeID::BadSequence);
            proof {
                lemma_table_code_error_class(self.config, CodeID::BadSequence);
            }
            return self.record_reply(rep, false);
        }
        let reverse_path = match parse_path_argument(&cmd.args, true) {
            Err(_) => {
                let rep = reply_in_config(&self.config, CodeID::SyntaxArgs);
                proof {
                    lemma_table_code_error_class(self.config, CodeID::SyntaxArgs);
                }
                return self.record_reply(rep, false);
            },
            Ok(p) => p,
        };
        self.ctx.to_mail_from(reverse_path, crate::ids::new_uuid_v128());
        let ghost c = self.ctx;
        let ghost rp = path_arg_spec(cmd.args@, true)->Ok_0;
        proof {
            assert(advanced_mail_from(c, old(self).ctx, rp));
        }
        let status = run_when(
            &self.config.hierarchy,
            &self.ctx,
            &mut self.skipped,
            ExecutionStage::MailFrom,
        );
        proof {
            if self.skipped is Some && self.skipped->0 is DelegationResult {
                assert(false);
            }
        }
        let ghost v = crate::rules::stage_verdict(
            old(self).config.hierarchy,
            c,
            old(self).skipped,
            ExecutionStage::MailFrom,
        );
        match status {
            Status::Deny(e) => {
                // A denial leaves the stage as it was: at the Helo stage no
                // transaction state had been recorded, so clearing the
                // advance restores the context exactly.
                self.ctx.stage = Stage::Helo;
                self.ctx.reverse_path = None;
                self.ctx.message_uuid = None;
                proof {
                    assert(self.ctx == old(self).ctx);
                    lemma_resolved_same(self.config, e, v->Deny_0);
                }
                let rep = resolve_reply(&self.config, &e);
                self.record_reply(rep, true)
            },
            Status::Accept(e) => {
                let rep = accept_reply_of(&self.config, &e);
                proof {
                    lemma_resolved_same(self.config, e, v->Accept_0);
                }
                self.record_reply(rep, false)
            },
            Status::Faccept(e) => {
                let rep = accept_reply_of(&self.config, &e);
                proof {
                    lemma_resolved_same(self.config, e, v->Faccept_0);
                }
                self.record_reply(rep, false)
            },
            _ => {
                let rep = reply_in_config(&self.config, CodeID::Okay);
                proof {
                    lemma_table_code_error_class(self.config, CodeID::Okay);
                }
                self.record_reply(rep, false)
            },
        }
    }

    #[verifier::rlimit(100)]
    fn on_rcpt_to(&mut self, cmd: &Command) -> (r: Transition)
        requires
            old(self).wf(),
            !old(self).closed,
        ensures
            final(self).wf(),
            budget_ok(*old(self), *final(self), r),
            rcpt_step(*old(self), *final(self), *cmd, r),
            final(self).ctx.stage == old(self).ctx.stage || ((old(self).ctx.stage
                == Stage::MailFrom || old(self).ctx.stage == Stage::RcptTo)
                && final(self).ctx.stage == Stage::RcptTo),
            final(self).ctx.stage != old(self).ctx.stage ==> !errored(r) && !r.close,
    {
        let stage_ok = match self.ctx.stage {
            Stage::MailFrom | Stage::RcptTo => true,
            _ => false,
        };
        if !stage_ok {
            let rep = reply_in_config(&self.config, CodeID::BadSequence);
            proof {
                lemma_table_code_error_class(self.config, CodeID::BadSequence);
            }
            return self.record_reply(rep, false);
        }
        if self.ctx.forward_paths.len() >= self.config.rcpt_count_max {
            let rep = reply_in_config(&self.config, CodeID::TooManyRecipients);
            proof {
                lemma_table_code_error_class(self.config, CodeID::TooManyRecipients);
            }
            return self.record_reply(rep, false);
        }
        let forward_path = match parse_path_argument(&cmd.args, false) {
            Err(_) | Ok(None) => {
                let rep = reply_in_config(&self.config, CodeID::SyntaxArgs);
                proof {
                    lemma_table_code_error_class(self.config, CodeID::SyntaxArgs);
                }
                return self.record_reply(rep, false);
            },
            Ok(Some(a)) => a,
        };
        let ghost fpl = forward_path.local@;
        let ghost fpd = forward_path.domain@;
        let saved_ctx = self.ctx.snapshot();
        let saved_internal = match &self.internal {
            Some(split) => Some(split.snapshot()),
            None => None,
        };
        let slot = apply_rcpt(
            &mut self.ctx,
            &mut self.internal,
            forward_path,
            &self.config.handled_domains,
        );
        let ghost slot_g = match slot {
            RcptSlot::InternalSlot => self.internal->0,
            RcptSlot::Primary => self.ctx,
        };
        let ghost p = path_arg_spec(cmd.args@, false)->Ok_0->0;
        let ghost class = rcpt_class_of(*old(self), p.1);
        proof {
            let domains = old(self).config.handled_domains@.map_values(|x: Vec<u8>| x@);
            let sh = crate::classify::sender_handled_spec(old(self).ctx, domains);
            let rh = crate::address::domain_handled(domains, fpd);
            let sd = crate::classify::reverse_domain_spec(old(self).ctx) == Some(fpd);
            assert(fpl == p.0 && fpd == p.1);
            assert(class == crate::classify::classify_spec(sh, rh, sd));
            assert(slot_g.forward_paths@.last().address.local@ == fpl);
            assert(slot_g.forward_paths@.last().address.domain@ == fpd);
            if class == crate::classify::RcptClass::Internal {
                assert(slot_g.transaction_type == Some(crate::context::TransactionType::Internal));
            } else if class == crate::classify::RcptClass::Outgoing {
                assert(sh);
                assert(crate::classify::reverse_domain_spec(old(self).ctx) is Some);
            }
            assert(rcpt_slot_shape(*old(self), slot_g, class, p.0, p.1));
        }
        let status = match slot {
            RcptSlot::InternalSlot => {
                let split = match &self.internal {
                    Some(split) => split,
                    None => {
                        proof {
                            assert(false);
                        }
                        &self.ctx
                    },
                };
                run_when(
                    &self.config.hierarchy,
                    split,
                    &mut self.skipped,
                    ExecutionStage::RcptTo,
                )
            },
            RcptSlot::Primary => run_when(
                &self.config.hierarchy,
                &self.ctx,
                &mut self.skipped,
                ExecutionStage::RcptTo,
            ),
        };
        proof {
            if self.skipped is Some && self.skipped->0 is DelegationResult {
                assert(false);
            }
        }
        let ghost v = crate::rules::stage_verdict(
            old(self).config.hierarchy,
            slot_g,
            old(self).skipped,
            ExecutionStage::RcptTo,
        );
        match status {
            Status::Deny(e) => {
                // A denial leaves the transaction as it stood: the
                // recipient, the classification and the split are dropped
                // again before the connection closes.
                self.ctx = saved_ctx;
                self.internal = saved_internal;
                let rep = resolve_reply(&self.config, &e);
                proof {
                    lemma_resolved_same(self.config, e, v->Deny_0);
                }
                self.record_reply(rep, true)
            },
            Status::Accept(e) => {
                let rep = accept_reply_of(&self.config, &e);
                proof {
                    lemma_resolved_same(self.config, e, v->Accept_0);
                }
                self.record_reply(rep, false)
            },
            Status::Faccept(e) => {
                let rep = accept_reply_of(&self.config, &e);
                proof {
                    lemma_resolved_same(self.config, e, v->Faccept_0);
                }
                self.record_reply(rep, false)
            },
            _ => {
                let rep = reply_in_config(&self.config, CodeID::Okay);
                proof {
                    lemma_table_code_error_class(self.config, CodeID::Okay);
                }
                self.record_reply(rep, false)
            },
        }
    }

    fn on_data(&mut self) -> (r: Transition)
        requires
            old(self).wf(),
            !old(self).closed,
        ensures
            final(self).wf(),
            budget_ok(*old(self), *final(self), r),
            data_step(*old(self), *final(self), r),
            final(self).ctx == old(self).ctx,
    {
        let stage_ok = match self.ctx.stage {
            Stage::RcptTo => true,
            _ => self.internal.is_some(),
        };
        if !stage_ok {
            let rep = reply_in_config(&self.config, CodeID::BadSequence);
            proof {
                lemma_table_code_error_class(self.config, CodeID::BadSequence);
            }
            return self.record_reply(rep, false);
        }
        let rep = reply_in_config(&self.config, CodeID::DataStart);
        proof {
            lemma_table_code_error_class(self.config, CodeID::DataStart);
        }
        self.record_reply(rep, false)
    }

    fn on_unknown(&mut self, cmd: &Command) -> (r: Transition)
        requires
            old(self).wf(),
            !old(self).closed,
        ensures
            final(self).wf(),
            budget_ok(*old(self), *final(self), r),
            unknown_step(*old(self), *final(self), *cmd, r),
            final(self).ctx == old(self).ctx,
    {
        let unimplemented = matches_word_exec(&cmd.args, &text_bytes("VRFY")) || matches_word_exec(
            &cmd.args,
            &text_bytes("EXPN"),
        ) || matches_word_exec(&cmd.args, &text_bytes("TURN"));
        let code = if unimplemented {
            CodeID::Unimplemented
        } else {
            CodeID::Unrecognized
        };
        proof {
            lemma_table_code_error_class(self.config, CodeID::Unimplemented);
            lemma_table_code_error_class(self.config, CodeID::Unrecognized);
            assert(crate::command::verb_matches(cmd.args@, Verb::Unknown));
        }
        let rep = reply_in_config(&self.config, code);
        self.record_reply(rep, false)
    }

    fn on_rset(&mut self) -> (r: Transition)
        requires
            old(self).wf(),
            !old(self).closed,
        ensures
            final(self).wf(),
            budget_ok(*old(self), *final(self), r),
            rset_step(*old(self), *final(self), r),
    {
        self.ctx.reset();
        self.internal = None;
        let rep = reply_in_config(&self.config, CodeID::Okay);
        proof {
            lemma_table_code_error_class(self.config, CodeID::Okay);
        }
        self.record_reply(rep, false)
    }

    fn on_starttls(&mut self) -> (r: Transition)
        requires
            old(self).wf(),
            !old(self).closed,
        ensures
            final(self).wf(),
            budget_ok(*old(self), *final(self), r),
            starttls_step(*old(self), *final(self), r),
            final(self).ctx == old(self).ctx,
    {
        if self.secured {
            let rep = reply_in_config(&self.config, CodeID::BadSequence);
            proof {
                lemma_table_code_error_class(self.config, CodeID::BadSequence);
            }
            return self.record_reply(rep, false);
        }
        if !self.config.tls_available {
            let rep = reply_in_config(&self.config, CodeID::TlsNotAvailable);
            proof {
                lemma_table_code_error_class(self.config, CodeID::TlsNotAvailable);
            }
            return self.record_reply(rep, false);
        }
        let rep = reply_in_config(&self.config, CodeID::TlsGoAhead);
        proof {
            lemma_table_code_error_class(self.config, CodeID::TlsGoAhead);
        }
        self.record_reply(rep, false)
    }

    /// After the driver completed the TLS handshake the SMTP session starts
    /// over on the secured channel.
    pub fn on_post_tls_handshake(&mut self)
        requires
            old(self).wf(),
        ensures
            final(self).wf(),
            final(self).secured,
            final(self).ctx.stage == Stage::Connect,
            final(self).ctx.helo is None,
            final(self).internal is None,
            final(self).errors == old(self).errors,
            final(self).config == old(self).config,
    {
        self.ctx.reset_to_connect();
        self.internal = None;
        self.secured = true;
    }

    fn on_auth(&mut self) -> (r: Transition)
        requires
            old(self).wf(),
            !old(self).closed,
        ensures
            final(self).wf(),
            budget_ok(*old(self), *final(self), r),
            auth_step(*old(self), *final(self), r),
            final(self).ctx == old(self).ctx,
    {
        if !self.config.auth_enabled {
            let rep = reply_in_config(&self.config, CodeID::Unimplemented);
            proof {
                lemma_table_code_error_class(self.config, CodeID::Unimplemented);
            }
            return self.record_reply(rep, false);
        }
        // The SASL exchange itself is the driver's: it reports back through
        // on_post_auth.
        Transition { reply: None, close: false, delay: false }
    }

    /// The outcome of the SASL exchange the driver ran: success resets the
    /// session to the start of the secured channel, failure is counted
    /// against the error budget.
    pub fn on_post_auth(&mut self, success: bool) -> (r: Transition)
        requires
            old(self).wf(),
            !old(self).closed,
        ensures
            final(self).wf(),
            budget_ok(*old(self), *final(self), r),
            success ==> final(self).ctx.stage == Stage::Connect && final(self).ctx.helo is None
                && !errored(r) && table_reply_sent(*old(self), r, CodeID::AuthSucceeded),
            !success ==> final(self).ctx == old(self).ctx && table_refusal_sent(
                *old(self),
                r,
                CodeID::AuthFailed,
            ),
    {
        if success {
            self.ctx.reset_to_connect();
            self.internal = None;
            let rep = reply_in_config(&self.config, CodeID::AuthSucceeded);
            proof {
                lemma_table_code_error_class(self.config, CodeID::AuthSucceeded);
            }
            self.record_reply(rep, false)
        } else {
            let rep = reply_in_config(&self.config, CodeID::AuthFailed);
            proof {
                lemma_table_code_error_class(self.config, CodeID::AuthFailed);
            }
            self.record_reply(rep, false)
        }
    }

    /// Dispatches one recognized command against the current stage: the
    /// verb's step contract holds, an ill-sequenced command is refused
    /// without touching the transaction, the stage moves only along the
    /// protocol's edges and only with a successful reply, and every 4xx or
    /// 5xx reply is charged against the error budget.
    pub fn handle_command(&mut self, cmd: &Command) -> (r: Transition)
        requires
            old(self).wf(),
            !old(self).closed,
        ensures
            final(self).wf(),
            command_step(*old(self), *final(self), *cmd, r),
    {
        match cmd.verb {
            Verb::Helo => self.on_helo(cmd, false),
            Verb::Ehlo => self.on_helo(cmd, true),
            Verb::MailFrom => self.on_mail_from(cmd),
            Verb::RcptTo => self.on_rcpt_to(cmd),
            Verb::Data => self.on_data(),
            Verb::Quit => {
                let rep = reply_in_config(&self.config, CodeID::Closing);
                proof {
                    lemma_table_code_error_class(self.config, CodeID::Closing);
                }
                self.record_reply(rep, true)
            },
            Verb::Rset => self.on_rset(),
            Verb::Noop => {
                let rep = reply_in_config(&self.config, CodeID::Okay);
                proof {
                    lemma_table_code_error_class(self.config, CodeID::Okay);
                }
                self.record_reply(rep, false)
            },
            Verb::Help => {
                let rep = reply_in_config(&self.config, CodeID::Help);
                proof {
                    lemma_table_code_error_class(self.config, CodeID::Help);
                }
                self.record_reply(rep, false)
            },
            Verb::StartTls => self.on_starttls(),
            Verb::Auth => self.on_auth(),
            Verb::Unknown => self.on_unknown(cmd),
        }
    }

    /// A stage timer fired: the client took too long. The timeout reply
    /// goes out and the connection closes, whatever the budget stands at.
    pub fn on_timeout(&mut self) -> (r: Transition)
        requires
            old(self).wf(),
            !old(self).closed,
        ensures
            final(self).wf(),
            budget_ok(*old(self), *final(self), r),
            untouched(*old(self), *final(self)),
            table_reply_sent(*old(self), r, CodeID::Timeout),
            r.close,
            final(self).closed,
    {
        let rep = reply_in_config(&self.config, CodeID::Timeout);
        proof {
            lemma_table_code_error_class(self.config, CodeID::Timeout);
        }
        self.record_reply(rep, true)
    }

    /// Answers one line that could not be framed or parsed at all.
    pub fn handle_bad_line(&mut self, _err: &ProtocolError) -> (r: Transition)
        requires
            old(self).wf(),
            !old(self).closed,
        ensures
            final(self).wf(),
            bad_line_step(*old(self), *final(self), r),
    {
        let rep = reply_in_config(&self.config, CodeID::Unrecognized);
        proof {
            lemma_table_code_error_class(self.config, CodeID::Unrecognized);
        }
        self.record_reply(rep, false)
    }

    /// Greets an accepted connection: the connect-stage rules run first and
    /// may refuse the client; otherwise the service-ready greeting stands.
    pub fn on_accept(&mut self) -> (r: Transition)
        requires
            old(self).wf(),
            !old(self).closed,
        ensures
            final(self).wf(),
            budget_ok(*old(self), *final(self), r),
            accept_greeting_step(*old(self), *final(self), r),
            final(self).ctx.stage == old(self).ctx.stage,
    {
        let status = run_when(
            &self.config.hierarchy,
            &self.ctx,
            &mut self.skipped,
            ExecutionStage::Connect,
        );
        proof {
            if self.skipped is Some && self.skipped->0 is DelegationResult {
                assert(false);
            }
        }
        let ghost v = crate::rules::stage_verdict(
            old(self).config.hierarchy,
            old(self).ctx,
            old(self).skipped,
            ExecutionStage::Connect,
        );
        match status {
            Status::Deny(e) => {
                let rep = resolve_reply(&self.config, &e);
                proof {
                    lemma_resolved_same(self.config, e, v->Deny_0);
                }
                self.record_reply(rep, true)
            },
            Status::Accept(e) => {
                let rep = accept_reply_of(&self.config, &e);
                proof {
                    lemma_resolved_same(self.config, e, v->Accept_0);
                }
                self.record_reply(rep, false)
            },
            Status::Faccept(e) => {
                let rep = accept_reply_of(&self.config, &e);
                proof {
                    lemma_resolved_same(self.config, e, v->Faccept_0);
                }
                self.record_reply(rep, false)
            },
            _ => {
                let rep = reply_in_config(&self.config, CodeID::Greetings);
                proof {
                    lemma_table_code_error_class(self.config, CodeID::Greetings);
                }
                self.record_reply(rep, false)
            },
        }
    }
}

/// A transition after which the driver must not take further commands off
/// the current batch: the connection closed, the driver owes a SASL
/// exchange, or a 3xx reply switched the channel into message input.
pub open spec fn stops_batch(t: Transition) -> bool {
    ||| t.close
    ||| t.reply is None
    ||| (300 <= t.reply->0.code < 400)
}

/// What one batch entry did: the command's own step for a parsed entry,
/// the bad-line step for one that would not parse.
pub open spec fn batch_item_ok(
    pre: Session,
    post: Session,
    c: Result<Command, ProtocolError>,
    t: Transition,
) -> bool {
    match c {
        Ok(cmd) => command_step(pre, post, cmd, t),
        Err(_) => bad_line_step(pre, post, t),
    }
}

impl Session {
    /// Answers one pipelined batch: the commands are taken in input order,
    /// reply `j` answers command `j` — the session states chain through the
    /// per-command step contracts — and the batch is cut short only by a
    /// transition that closes the connection or switches the channel.
    pub fn handle_batch(&mut self, cmds: &Vec<Result<Command, ProtocolError>>) -> (r: Vec<
        Transition,
    >)
        requires
            old(self).wf(),
            !old(self).closed,
        ensures
            final(self).wf(),
            r@.len() <= cmds@.len(),
            forall|j: int| 0 <= j < r@.len() ==> (stops_batch(#[trigger] r@[j]) ==> j == r@.len() - 1),
            r@.len() < cmds@.len() ==> stops_batch(r@[r@.len() - 1]),
            final(self).closed ==> r@.len() > 0 && r@[r@.len() - 1].close,
            !final(self).closed ==> forall|j: int| 0 <= j < r@.len() ==> !(#[trigger] r@[j]).close,
            exists|states: Seq<Session>|
                #![trigger states.len()]
                {
                    &&& states.len() == r@.len() + 1
                    &&& states[0] == *old(self)
                    &&& states[states.len() - 1] == *final(self)
                    &&& forall|j: int|
                        0 <= j < r@.len() ==> #[trigger] batch_item_ok(
                            states[j],
                            states[j + 1],
                            cmds@[j],
                            r@[j],
                        )
                },
    {
        let mut out: Vec<Transition> = Vec::new();
        let ghost mut states: Seq<Session> = seq![*old(self)];
        let mut i: usize = 0;
        while i < cmds.len()
            invariant
                i <= cmds@.len(),
                out@.len() == i,
                self.wf(),
                !self.closed,
                forall|j: int| 0 <= j < out@.len() ==> !stops_batch(#[trigger] out@[j]),
                states.len() == out@.len() + 1,
                states[0] == *old(self),
                states[states.len() - 1] == *self,
                forall|j: int|
                    0 <= j < out@.len() ==> #[trigger] batch_item_ok(
                        states[j],
                        states[j + 1],
                        cmds@[j],
                        out@[j],
                    ),
            decreases cmds@.len() - i,
        {
            let ghost pre_state = *self;
            let t = match &cmds[i] {
                Ok(cmd) => self.handle_command(cmd),
                Err(e) => self.handle_bad_line(e),
            };
            proof {
                states = states.push(*self);
                assert(batch_item_ok(pre_state, *self, cmds@[i as int], t));
            }
            let stop = t.close || match &t.reply {
                None => true,
                Some(rep) => 300 <= rep.code && rep.code < 400,
            };
            out.push(t);
            proof {
                assert forall|j: int|
                    0 <= j < out@.len() implies #[trigger] batch_item_ok(
                    states[j],
                    states[j + 1],
                    cmds@[j],
                    out@[j],
                ) by {
                    if j == out@.len() - 1 {
                        assert(out@[j] == t);
                        assert(states[j] == pre_state);
                        assert(states[j + 1] == *self);
                    }
                }
            }
            if stop {
                proof {
                    assert(stops_batch(out@[out@.len() - 1]));
                    assert(exists|w: Seq<Session>|
                        #![trigger w.len()]
                        {
                            &&& w.len() == out@.len() + 1
                            &&& w[0] == *old(self)
                            &&& w[w.len() - 1] == *self
                            &&& forall|j: int|
                                0 <= j < out@.len() ==> #[trigger] batch_item_ok(
                                    w[j],
                                    w[j + 1],
                                    cmds@[j],
                                    out@[j],
                                )
                        }) by {
                        assert(states.len() == out@.len() + 1);
                    }
                }
                return out;
            }
            i = i + 1;
        }
        proof {
            assert(exists|w: Seq<Session>|
                #![trigger w.len()]
                {
                    &&& w.len() == out@.len() + 1
                    &&& w[0] == *old(self)
                    &&& w[w.len() - 1] == *self
                    &&& forall|j: int|
                        0 <= j < out@.len() ==> #[trigger] batch_item_ok(
                            w[j],
                            w[j + 1],
                            cmds@[j],
                            out@[j],
                        )
                }) by {
                assert(states.len() == out@.len() + 1);
            }
        }
        out
    }
}

/// One message ready for the working queue: its frozen context and its
/// unstuffed body lines.
pub struct FinishedEnvelope {
    pub ctx: MailContext,
    pub body: Vec<Vec<u8>>,
}

/// The stream holds a whole message within the limit: a lone dot line,
/// with the unstuffed bytes before it under the configured maximum.
pub open spec fn message_complete(lv: Seq<Seq<u8>>, limit: int) -> bool {
    crate::codec::first_terminator(lv) matches Some(m) && crate::codec::unstuffed_prefix_size(
        lv,
        m,
    ) < limit
}

/// The envelope carries the frozen image of context `c`: the Finished
/// stage, and the envelope data of `c` unchanged in content.
pub open spec fn frozen_of(env: FinishedEnvelope, c: MailContext) -> bool {
    &&& env.ctx.stage == Stage::Finished
    &&& env.ctx.forward_paths@.len() == c.forward_paths@.len()
    &&& (forall|i: int|
        0 <= i < c.forward_paths@.len() ==> crate::context::same_address(
            (#[trigger] env.ctx.forward_paths@[i]).address,
            c.forward_paths@[i].address,
        ))
    &&& crate::context::same_reverse_path(env.ctx.reverse_path, c.reverse_path)
    &&& crate::context::same_txn(env.ctx.transaction_type, c.transaction_type)
    &&& env.ctx.message_uuid == c.message_uuid
    &&& c.same_connection(env.ctx)
}

/// The message-ingestion step. An incomplete or oversized stream refuses
/// and keeps nothing. A complete stream runs the pre-queue rules over the
/// primary context (when it holds a recipient) and then over the split
/// context (when one exists, with the verdict possibly memoized by the
/// first run): every slot not denied is frozen, primary first, each
/// carrying the unstuffed body; with an accepted slot the reply is the
/// okay-table entry, with everything denied the denial answers and the
/// connection closes. The session stands ready for the next transaction.
pub open spec fn message_step(
    pre: Session,
    post: Session,
    lv: Seq<Seq<u8>>,
    t: Transition,
    envs: Seq<FinishedEnvelope>,
) -> bool {
    let limit = pre.config.message_size_limit as int;
    let h = pre.config.hierarchy;
    &&& post.secured == pre.secured
    &&& (post.ctx.stage == Stage::Helo || post.ctx.stage == Stage::Connect)
    &&& post.internal is None
    &&& (!message_complete(lv, limit) ==> envs.len() == 0 && (match crate::codec::first_terminator(
        lv,
    ) {
        Some(m) => table_refusal_sent(pre, t, CodeID::MessageTooLong),
        None => if crate::codec::unstuffed_prefix_size(lv, lv.len() as int) >= limit {
            table_refusal_sent(pre, t, CodeID::MessageTooLong)
        } else {
            table_refusal_sent(pre, t, CodeID::Unrecognized)
        },
    }))
    &&& (message_complete(lv, limit) ==> {
        let m = crate::codec::first_terminator(lv)->0;
        let body = crate::codec::unstuff_spec(lv.subrange(0, m));
        let ran_primary = pre.ctx.stage == Stage::RcptTo;
        let v1 = crate::rules::stage_verdict(h, pre.ctx, pre.skipped, ExecutionStage::PreQ);
        let accepted1 = ran_primary && !(v1 is Deny);
        &&& (accepted1 ==> envs.len() >= 1 && frozen_of(envs[0], pre.ctx)
            && envs[0].body@.map_values(|l: Vec<u8>| l@) == body)
        &&& (pre.internal is None ==> {
            &&& envs.len() == (if accepted1 {
                1int
            } else {
                0
            })
            &&& (ran_primary && v1 is Deny ==> verdict_reply_sent(pre, t, v1->Deny_0) && t.close)
            &&& (!ran_primary ==> table_reply_sent(pre, t, CodeID::Denied) && t.close)
        })
        &&& (pre.internal is Some ==> exists|s1: Option<Status>|
            {
                &&& #[trigger] skip_rel(h, pre.ctx, pre.skipped, ran_primary, s1)
                &&& ({
                    let v2 = crate::rules::stage_verdict(
                        h,
                        pre.internal->0,
                        s1,
                        ExecutionStage::PreQ,
                    );
                    let accepted2 = !(v2 is Deny);
                    let idx = if accepted1 {
                        1int
                    } else {
                        0
                    };
                    &&& (accepted2 ==> envs.len() == idx + 1 && frozen_of(
                        envs[idx],
                        pre.internal->0,
                    ) && envs[idx].body@.map_values(|l: Vec<u8>| l@) == body)
                    &&& (!accepted2 ==> envs.len() == idx)
                    &&& (!accepted1 && !accepted2 ==> t.close && (ran_primary && v1 is Deny
                        ==> verdict_reply_sent(pre, t, v1->Deny_0)) && (!ran_primary
                        ==> verdict_reply_sent(pre, t, v2->Deny_0)))
                })
            })
        &&& (accepted1 || (pre.internal is Some && exists|s1: Option<Status>|
            #[trigger] skip_rel(h, pre.ctx, pre.skipped, ran_primary, s1) && !(
            crate::rules::stage_verdict(h, pre.internal->0, s1, ExecutionStage::PreQ) is Deny))
            ==> table_reply_sent(pre, t, CodeID::Okay) && !t.close)
    })
}

/// How the memoized verdict stands before the split context's pre-queue
/// run: evolved by the primary's run where one happened, untouched where
/// the primary held no recipient.
pub open spec fn skip_rel(
    h: Hierarchy,
    ctx: MailContext,
    pre_skip: Option<Status>,
    ran_primary: bool,
    s1: Option<Status>,
) -> bool {
    if ran_primary {
        crate::rules::skip_evolves(h, ctx, pre_skip, ExecutionStage::PreQ, s1)
    } else {
        s1 == pre_skip
    }
}

impl Session {
    /// Ingests the message stream after DATA; `message_step` states the
    /// whole of it: refusal of oversized and unterminated streams, the
    /// pre-queue verdicts over the primary and the split context, the
    /// frozen envelopes handed back for the working queue, and the reply.
    #[verifier::rlimit(100)]
    pub fn on_message(&mut self, lines: &Vec<Vec<u8>>) -> (r: (Transition, Vec<FinishedEnvelope>))
        requires
            old(self).wf(),
            !old(self).closed,
            old(self).ctx.stage == Stage::RcptTo || (*old(self)).internal is Some,
        ensures
            final(self).wf(),
            budget_ok(*old(self), *final(self), r.0),
            message_step(
                *old(self),
                *final(self),
                lines@.map_values(|l: Vec<u8>| l@),
                r.0,
                r.1@,
            ),
            r.1@.len() <= 2,
    {
        let ghost lv = lines@.map_values(|l: Vec<u8>| l@);
        let read = crate::codec::read_message(lines, self.config.message_size_limit);
        let body = match read {
            crate::codec::MessageRead::TooLong { .. } => {
                self.ctx.reset();
                self.internal = None;
                let rep = reply_in_config(&self.config, CodeID::MessageTooLong);
                proof {
                    lemma_table_code_error_class(self.config, CodeID::MessageTooLong);
                }
                let t = self.record_reply(rep, false);
                return (t, Vec::new());
            },
            crate::codec::MessageRead::Incomplete { .. } => {
                self.ctx.reset();
                self.internal = None;
                let rep = reply_in_config(&self.config, CodeID::Unrecognized);
                proof {
                    lemma_table_code_error_class(self.config, CodeID::Unrecognized);
                }
                let t = self.record_reply(rep, false);
                return (t, Vec::new());
            },
            crate::codec::MessageRead::Complete { body, consumed } => {
                proof {
                    assert(crate::codec::first_terminator(lv) == Some(consumed - 1));
                }
                body
            },
        };
        let ghost bv = body@.map_values(|l: Vec<u8>| l@);
        let mut envelopes: Vec<FinishedEnvelope> = Vec::new();
        let mut any_accepted = false;
        let mut denied_status: Option<Status> = None;
        let primary_has_rcpt = match self.ctx.stage {
            Stage::RcptTo => true,
            _ => false,
        };
        let ghost v1 = crate::rules::stage_verdict(
            old(self).config.hierarchy,
            old(self).ctx,
            old(self).skipped,
            ExecutionStage::PreQ,
        );
        if primary_has_rcpt {
            let status = run_when(
                &self.config.hierarchy,
                &self.ctx,
                &mut self.skipped,
                ExecutionStage::PreQ,
            );
            proof {
                if self.skipped is Some && self.skipped->0 is DelegationResult {
                    assert(false);
                }
            }
            if matches!(status, Status::Deny(_)) {
                denied_status = Some(status);
            } else {
                let mut frozen = self.ctx.snapshot();
                frozen.to_finished();
                let mut body_copy: Vec<Vec<u8>> = Vec::new();
                let mut k: usize = 0;
                while k < body.len()
                    invariant
                        k <= body@.len(),
                        bv == body@.map_values(|l: Vec<u8>| l@),
                        body_copy@.map_values(|l: Vec<u8>| l@) =~= bv.subrange(0, k as int),
                    decreases body@.len() - k,
                {
                    let ghost prev = body_copy@.map_values(|l: Vec<u8>| l@);
                    body_copy.push(body[k].clone());
                    proof {
                        assert(body_copy@.map_values(|l: Vec<u8>| l@) =~= prev.push(bv[k as int]));
                    }
                    k = k + 1;
                }
                proof {
                    assert(body_copy@.map_values(|l: Vec<u8>| l@) =~= bv);
                }
                envelopes.push(FinishedEnvelope { ctx: frozen, body: body_copy });
                any_accepted = true;
            }
        }
        let ghost s1 = self.skipped;
        let split = self.internal.take();
        match split {
            Some(split_ctx) => {
                let status = run_when(
                    &self.config.hierarchy,
                    &split_ctx,
                    &mut self.skipped,
                    ExecutionStage::PreQ,
                );
                proof {
                    if self.skipped is Some && self.skipped->0 is DelegationResult {
                        assert(false);
                    }
                }
                if matches!(status, Status::Deny(_)) {
                    if denied_status.is_none() {
                        denied_status = Some(status);
                    }
                } else {
                    let mut frozen = split_ctx.snapshot();
                    frozen.to_finished();
                    envelopes.push(FinishedEnvelope { ctx: frozen, body });
                    any_accepted = true;
                }
            },
            None => {},
        }
        self.ctx.reset();
        self.internal = None;
        proof {
            if (*old(self)).internal is Some {
                assert(skip_rel(
                    old(self).config.hierarchy,
                    old(self).ctx,
                    old(self).skipped,
                    old(self).ctx.stage == Stage::RcptTo,
                    s1,
                ));
            }
        }
        if any_accepted {
            let rep = reply_in_config(&self.config, CodeID::Okay);
            proof {
                lemma_table_code_error_class(self.config, CodeID::Okay);
            }
            let t = self.record_reply(rep, false);
            (t, envelopes)
        } else {
            let (rep, ghost_payload) = match denied_status {
                Some(Status::Deny(e)) => {
                    let rep = resolve_reply(&self.config, &e);
                    (rep, Ghost(Some(e)))
                },
                _ => {
                    let rep = reply_in_config(&self.config, CodeID::Denied);
                    proof {
                        lemma_table_code_error_class(self.config, CodeID::Denied);
                    }
                    (rep, Ghost(None))
                },
            };
            proof {
                if old(self).ctx.stage == Stage::RcptTo && v1 is Deny {
                    lemma_resolved_same(self.config, ghost_payload@->0, v1->Deny_0);
                }
                if old(self).ctx.stage != Stage::RcptTo && (*old(self)).internal is Some {
                    let v2 = crate::rules::stage_verdict(
                        old(self).config.hierarchy,
                        (*old(self)).internal->0,
                        s1,
                        ExecutionStage::PreQ,
                    );
                    if v2 is Deny {
                        lemma_resolved_same(self.config, ghost_payload@->0, v2->Deny_0);
                    }
                }
            }
            let t = self.record_reply(rep, true);
            (t, envelopes)
        }
    }
}

} // verus!
