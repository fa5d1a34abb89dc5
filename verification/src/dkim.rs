//! DKIM verification and signing support: the verdict settled over the
//! signature headers of a message, the per-context cache that keeps a
//! second verification from adding another results header, the
//! canonicalization notation, and the signing defaults.

use vstd::prelude::*;
use vstd::string::StringSliceAdditionalSpecFns;
use crate::address::bytes_eq;
use crate::context::{DkimStatus, DkimVerdict, MailContext};
use crate::reply::{append_bytes, text_bytes};

verus! {

/// What checking one signature header against its public key yielded. The
/// parsing, the DNS lookup and the cryptography happen outside; the verdict
/// over the whole header list is settled here.
pub enum SignatureCheck {
    /// The header did not parse as a signature.
    ParseFailed,
    /// The signature has expired; it is passed over without an error.
    Expired,
    /// The key lookup failed for a temporary reason.
    TempDnsError,
    /// The key lookup failed permanently.
    PermDnsError,
    /// The key record exists but no key could be read from it.
    KeyParseFailed,
    /// Hashes or signature do not match.
    Mismatch,
    /// The signature verified against a key.
    Verified { sdid: Vec<u8>, auid: Vec<u8>, debug_flag: bool },
}

/// The status a failed check contributes; checks that are merely skipped
/// contribute nothing.
pub open spec fn check_error_status(c: SignatureCheck) -> Option<DkimStatus> {
    match c {
        SignatureCheck::ParseFailed => Some(DkimStatus::Neutral),
        SignatureCheck::KeyParseFailed => Some(DkimStatus::Neutral),
        SignatureCheck::TempDnsError => Some(DkimStatus::TempError),
        SignatureCheck::PermDnsError => Some(DkimStatus::PermError),
        SignatureCheck::Mismatch => Some(DkimStatus::Fail),
        SignatureCheck::Expired => None,
        SignatureCheck::Verified { .. } => None,
    }
}

/// A winning signature: one that matched its key, the key free of the
/// debug flag.
pub open spec fn is_winner(c: SignatureCheck) -> bool {
    c matches SignatureCheck::Verified { debug_flag, .. } && !debug_flag
}

/// The first winning check, if any.
pub open spec fn winner_index(checks: Seq<SignatureCheck>) -> Option<int> {
    if exists|i: int| 0 <= i < checks.len() && is_winner(#[trigger] checks[i]) {
        Some(
            choose|i: int|
                0 <= i < checks.len() && is_winner(#[trigger] checks[i]) && forall|j: int|
                    0 <= j < i ==> !is_winner(#[trigger] checks[j]),
        )
    } else {
        None
    }
}

/// The status of the last error among the checks, `NoSignature` when no
/// check erred.
pub open spec fn last_error_status(checks: Seq<SignatureCheck>) -> DkimStatus
    decreases checks.len(),
{
    if checks.len() == 0 {
        DkimStatus::NoSignature
    } else {
        match check_error_status(checks.last()) {
            Some(s) => s,
            None => last_error_status(checks.drop_last()),
        }
    }
}

fn error_status_of(c: &SignatureCheck) -> (r: Option<DkimStatus>)
    ensures
        r == check_error_status(*c),
{
    match c {
        SignatureCheck::ParseFailed => Some(DkimStatus::Neutral),
        SignatureCheck::KeyParseFailed => Some(DkimStatus::Neutral),
        SignatureCheck::TempDnsError => Some(DkimStatus::TempError),
        SignatureCheck::PermDnsError => Some(DkimStatus::PermError),
        SignatureCheck::Mismatch => Some(DkimStatus::Fail),
        SignatureCheck::Expired => None,
        SignatureCheck::Verified { .. } => None,
    }
}

proof fn lemma_last_error_prefix(checks: Seq<SignatureCheck>, i: int)
    requires
        0 <= i <= checks.len(),
        forall|j: int| i <= j < checks.len() ==> check_error_status(#[trigger] checks[j]) is None,
    ensures
        last_error_status(checks) == last_error_status(checks.subrange(0, i)),
    decreases checks.len() - i,
{
    if i < checks.len() {
        lemma_last_error_prefix(checks, i + 1);
        assert(checks.subrange(0, i + 1).drop_last() =~= checks.subrange(0, i));
        assert(checks.subrange(0, i + 1).last() == checks[i]);
    } else {
        assert(checks.subrange(0, checks.len() as int) =~= checks);
    }
}

/// Settles the verdict over at most `nbr_headers` signature checks, in
/// header order: the first verification that passes without the debug flag
/// wins and carries its identifiers; otherwise the verdict is the status
/// of the worst, last error, and `NoSignature` when nothing erred.
#[verifier::rlimit(60)]
pub fn settle_verdict(checks: &Vec<SignatureCheck>, nbr_headers: usize) -> (r: DkimVerdict)
    ensures
        ({
            let considered = if checks@.len() <= nbr_headers {
                checks@
            } else {
                checks@.subrange(0, nbr_headers as int)
            };
            match winner_index(considered) {
                Some(i) => {
                    &&& r.status == DkimStatus::Pass
                    &&& considered[i] is Verified
                    &&& r.sdid@ == considered[i]->Verified_sdid@
                    &&& r.auid@ == considered[i]->Verified_auid@
                },
                None => r.status == last_error_status(considered) && r.sdid@.len() == 0
                    && r.auid@.len() == 0,
            }
        }),
{
    let n = if checks.len() <= nbr_headers {
        checks.len()
    } else {
        nbr_headers
    };
    let ghost considered = if checks@.len() <= nbr_headers {
        checks@
    } else {
        checks@.subrange(0, nbr_headers as int)
    };
    proof {
        assert(considered =~= checks@.subrange(0, n as int));
    }
    let mut last_error: Option<DkimStatus> = None;
    let mut i: usize = 0;
    while i < n
        invariant
            i <= n <= checks@.len(),
            considered =~= checks@.subrange(0, n as int),
            considered == (if checks@.len() <= nbr_headers {
                checks@
            } else {
                checks@.subrange(0, nbr_headers as int)
            }),
            forall|j: int| 0 <= j < i ==> !is_winner(#[trigger] considered[j]),
            match last_error {
                Some(s) => last_error_status(considered.subrange(0, i as int)) == s && s
                    != DkimStatus::NoSignature,
                None => last_error_status(considered.subrange(0, i as int))
                    == DkimStatus::NoSignature,
            },
        decreases n - i,
    {
        let c = &checks[i];
        proof {
            assert(considered[i as int] == checks@[i as int]);
        }
        match c {
            SignatureCheck::Verified { sdid, auid, debug_flag } => {
                if !*debug_flag {
                    proof {
                        let ci = i as int;
                        assert(is_winner(considered[ci]));
                        assert(exists|k: int|
                            0 <= k < considered.len() && is_winner(#[trigger] considered[k])
                                && forall|j: int|
                                0 <= j < k ==> !is_winner(#[trigger] considered[j])) by {
                            assert(0 <= ci < considered.len() && is_winner(considered[ci])
                                && forall|j: int| 0 <= j < ci ==> !is_winner(
                                #[trigger] considered[j],
                            ));
                        }
                        let k = winner_index(considered)->0;
                        assert(is_winner(considered[k]) && forall|j: int|
                            0 <= j < k ==> !is_winner(#[trigger] considered[j]));
                        assert(!(k < ci) && !(ci < k));
                        assert(winner_index(considered) == Some(ci));
                        assert(considered[ci] == checks@[ci]);
                        assert(checks@[ci]->Verified_sdid == *sdid);
                        assert(checks@[ci]->Verified_auid == *auid);
                    }
                    return DkimVerdict {
                        status: DkimStatus::Pass,
                        sdid: sdid.clone(),
                        auid: auid.clone(),
                    };
                }
            },
            _ => {},
        }
        match error_status_of(c) {
            Some(s) => {
                last_error = Some(s);
            },
            None => {},
        }
        proof {
            assert(considered.subrange(0, i + 1).drop_last() =~= considered.subrange(0, i as int));
            assert(considered.subrange(0, i + 1).last() == considered[i as int]);
        }
        i = i + 1;
    }
    proof {
        assert(considered.subrange(0, n as int) =~= considered);
        assert(winner_index(considered) is None) by {
            if winner_index(considered) is Some {
                let k = choose|k: int| 0 <= k < considered.len() && is_winner(considered[k]);
                assert(!is_winner(considered[k]));
            }
        }
    }
    match last_error {
        Some(s) => DkimVerdict { status: s, sdid: Vec::new(), auid: Vec::new() },
        None => DkimVerdict { status: DkimStatus::NoSignature, sdid: Vec::new(), auid: Vec::new() },
    }
}

/// The kinds a DNS resolution failure falls into, as the resolver
/// reports them.
#[derive(Clone, Copy, PartialEq, Eq, Structural, Debug)]
pub enum DnsFailureKind {
    /// A static message error.
    Message,
    /// An owned message error.
    Msg,
    /// No connection to any name server was available.
    NoConnections,
    /// The name exists but holds no record of the asked type.
    NoRecordsFound,
    /// An input or output failure underneath the lookup.
    Io,
    /// A protocol-level failure.
    Proto,
    /// The lookup timed out.
    Timeout,
}

/// A failure that asking again will not mend: the message-shaped errors,
/// a resolver with no connections, and a name without records.
pub open spec fn dns_failure_permanent(kind: DnsFailureKind) -> bool {
    kind == DnsFailureKind::Message || kind == DnsFailureKind::Msg || kind
        == DnsFailureKind::NoConnections || kind == DnsFailureKind::NoRecordsFound
}

/// Classifies a key-lookup failure into the signature check it
/// contributes: permanent kinds give the permanent error, every other
/// kind the temporary one.
pub fn classify_dns_failure(kind: DnsFailureKind) -> (r: SignatureCheck)
    ensures
        (r is PermDnsError) <==> dns_failure_permanent(kind),
        (r is TempDnsError) <==> !dns_failure_permanent(kind),
{
    match kind {
        DnsFailureKind::Message
        | DnsFailureKind::Msg
        | DnsFailureKind::NoConnections
        | DnsFailureKind::NoRecordsFound => SignatureCheck::PermDnsError,
        _ => SignatureCheck::TempDnsError,
    }
}

/// Equality of verdicts, by content.
pub open spec fn same_verdict(a: DkimVerdict, b: DkimVerdict) -> bool {
    a.status == b.status && a.sdid@ == b.sdid@ && a.auid@ == b.auid@
}

/// Verifies a message for its context, through the cache: the first call
/// settles the verdict over the checks, stores it, and asks the caller to
/// prepend an authentication-results header; a second call on an unchanged
/// context returns the stored verdict and asks for no new header.
pub fn verify_cached(ctx: &mut MailContext, checks: &Vec<SignatureCheck>, nbr_headers: usize)
    -> (r: (DkimVerdict, bool))
    ensures
        r.1 <==> (old(ctx).dkim is None),
        final(ctx).dkim is Some,
        same_verdict(r.0, final(ctx).dkim->0),
        old(ctx).dkim is Some ==> *final(ctx) == *old(ctx) && same_verdict(
            r.0,
            old(ctx).dkim->0,
        ),
        final(ctx).stage == old(ctx).stage,
        final(ctx).forward_paths == old(ctx).forward_paths,
        final(ctx).reverse_path == old(ctx).reverse_path,
        final(ctx).transaction_type == old(ctx).transaction_type,
        final(ctx).helo == old(ctx).helo,
        final(ctx).message_uuid == old(ctx).message_uuid,
        final(ctx).retry == old(ctx).retry,
        old(ctx).same_connection(*final(ctx)),
        old(ctx).wf() ==> final(ctx).wf(),
{
    match &ctx.dkim {
        Some(v) => {
            let cached = DkimVerdict { status: v.status, sdid: v.sdid.clone(), auid: v.auid.clone() };
            (cached, false)
        },
        None => {
            let verdict = settle_verdict(checks, nbr_headers);
            let stored = DkimVerdict {
                status: verdict.status,
                sdid: verdict.sdid.clone(),
                auid: verdict.auid.clone(),
            };
            ctx.dkim = Some(stored);
            (verdict, true)
        },
    }
}

/// How multiple keys in one DNS record set are used: only the first, or
/// every one in turn.
#[derive(Clone, Copy, PartialEq, Eq, Structural, Debug)]
pub enum KeyPolicy {
    First,
    Cycle,
}

/// Applies the record policy to the fetched key records: under `First` at
/// most the first record is kept, under `Cycle` all of them, in order.
pub fn select_key_records(policy: KeyPolicy, records: &Vec<Vec<u8>>) -> (r: Vec<Vec<u8>>)
    ensures
        policy == KeyPolicy::First ==> r@.len() <= 1 && (records@.len() > 0 ==> r@.len() == 1
            && r@[0]@ == records@[0]@),
        policy == KeyPolicy::Cycle ==> r@.len() == records@.len() && forall|i: int|
            0 <= i < r@.len() ==> (#[trigger] r@[i])@ == records@[i]@,
{
    let mut out: Vec<Vec<u8>> = Vec::new();
    match policy {
        KeyPolicy::First => {
            if records.len() > 0 {
                out.push(records[0].clone());
            }
        },
        KeyPolicy::Cycle => {
            let mut i: usize = 0;
            while i < records.len()
                invariant
                    i <= records@.len(),
                    out@.len() == i,
                    forall|j: int| 0 <= j < i ==> (#[trigger] out@[j])@ == records@[j]@,
                decreases records@.len() - i,
            {
                out.push(records[i].clone());
                i = i + 1;
            }
        },
    }
    out
}

/// A canonicalization algorithm of the signature scheme.
#[derive(Clone, Copy, PartialEq, Eq, Structural, Debug)]
pub enum Canonicalization {
    Simple,
    Relaxed,
}

/// The header and body canonicalization of a signature.
#[derive(Clone, Copy, PartialEq, Eq, Structural, Debug)]
pub struct CanonicalizationPair {
    pub header: Canonicalization,
    pub body: Canonicalization,
}

/// The notation of one algorithm.
pub open spec fn canon_name(c: Canonicalization) -> Seq<u8> {
    match c {
        Canonicalization::Simple => "simple".spec_bytes(),
        Canonicalization::Relaxed => "relaxed".spec_bytes(),
    }
}

/// The algorithm one word names.
pub open spec fn canon_of_word(v: Seq<u8>) -> Option<Canonicalization> {
    if v == "simple".spec_bytes() {
        Some(Canonicalization::Simple)
    } else if v == "relaxed".spec_bytes() {
        Some(Canonicalization::Relaxed)
    } else {
        None
    }
}

fn parse_canon_word(v: &Vec<u8>) -> (r: Option<Canonicalization>)
    ensures
        r == canon_of_word(v@),
{
    if bytes_eq(v, &text_bytes("simple")) {
        Some(Canonicalization::Simple)
    } else if bytes_eq(v, &text_bytes("relaxed")) {
        Some(Canonicalization::Relaxed)
    } else {
        None
    }
}

/// The ASCII solidus separating the header from the body algorithm.
pub const SLASH: u8 = 47;

/// The pair a canonicalization notation names: one word names the header
/// algorithm with the body defaulting to simple; two words joined by the
/// first solidus name both; anything else names nothing.
pub open spec fn canonicalization_of(v: Seq<u8>) -> Option<CanonicalizationPair> {
    match crate::rules::first_sep(v, SLASH, 0) {
        None => match canon_of_word(v) {
            Some(h) => Some(CanonicalizationPair { header: h, body: Canonicalization::Simple }),
            None => None,
        },
        Some(i) => if 0 <= i < v.len() {
            match (canon_of_word(v.subrange(0, i)), canon_of_word(
                v.subrange(i + 1, v.len() as int),
            )) {
                (Some(h), Some(b)) => Some(CanonicalizationPair { header: h, body: b }),
                _ => None,
            }
        } else {
            None
        },
    }
}

/// Reads a canonicalization notation, and only a well-formed one.
pub fn parse_canonicalization(v: &Vec<u8>) -> (r: Option<CanonicalizationPair>)
    ensures
        r == canonicalization_of(v@),
{
    let mut slash: Option<usize> = None;
    let mut i: usize = 0;
    while i < v.len()
        invariant
            i <= v@.len(),
            match slash {
                Some(k) => k < i <= v@.len() && v@[k as int] == SLASH && forall|j: int|
                    0 <= j < k ==> v@[j] != SLASH,
                None => forall|j: int| 0 <= j < i ==> v@[j] != SLASH,
            },
        decreases v@.len() - i,
    {
        if v[i] == SLASH && slash.is_none() {
            slash = Some(i);
        }
        i = i + 1;
    }
    match slash {
        None => {
            proof {
                crate::rules::lemma_first_sep_skip(v@, SLASH, v@.len() as int);
            }
            match parse_canon_word(v) {
                Some(h) => Some(
                    CanonicalizationPair { header: h, body: Canonicalization::Simple },
                ),
                None => None,
            }
        },
        Some(k) => {
            proof {
                crate::rules::lemma_first_sep_skip(v@, SLASH, k as int);
            }
            let mut head: Vec<u8> = Vec::new();
            let mut a: usize = 0;
            while a < k
                invariant
                    a <= k < v@.len(),
                    head@ == v@.subrange(0, a as int),
                decreases k - a,
            {
                head.push(v[a]);
                a = a + 1;
                proof {
                    assert(head@ =~= v@.subrange(0, a as int));
                }
            }
            let mut tail: Vec<u8> = Vec::new();
            let mut b: usize = k + 1;
            while b < v.len()
                invariant
                    k + 1 <= b <= v@.len(),
                    tail@ == v@.subrange(k + 1, b as int),
                decreases v@.len() - b,
            {
                tail.push(v[b]);
                b = b + 1;
                proof {
                    assert(tail@ =~= v@.subrange(k + 1, b as int));
                }
            }
            match (parse_canon_word(&head), parse_canon_word(&tail)) {
                (Some(h), Some(bd)) => Some(CanonicalizationPair { header: h, body: bd }),
                _ => None,
            }
        },
    }
}

/// The DNS name at which a signature's public key is published:
/// `<selector>._domainkey.<sdid>`.
pub fn dns_key_record_name(selector: &Vec<u8>, sdid: &Vec<u8>) -> (r: Vec<u8>)
    ensures
        r@ == selector@ + "._domainkey.".spec_bytes() + sdid@,
{
    let mut out = selector.clone();
    append_bytes(&mut out, &text_bytes("._domainkey."));
    append_bytes(&mut out, sdid);
    proof {
        assert(out@ =~= selector@ + "._domainkey.".spec_bytes() + sdid@);
    }
    out
}

/// The signing parameters with the documented defaults applied: the
/// signing domain defaults to the server's name, the signed header list to
/// From, To, Date, Subject and From again, and the canonicalization to
/// simple for headers and relaxed for the body.
pub fn signing_defaults(
    sdid: Option<Vec<u8>>,
    server_name: &Vec<u8>,
    headers_field: Option<Vec<Vec<u8>>>,
    canonicalization: Option<CanonicalizationPair>,
) -> (r: (Vec<u8>, Vec<Vec<u8>>, CanonicalizationPair))
    ensures
        match sdid {
            Some(d) => r.0@ == d@,
            None => r.0@ == server_name@,
        },
        match headers_field {
            Some(hs) => r.1@ == hs@,
            None => {
                &&& r.1@.len() == 5
                &&& r.1@[0]@ == "From".spec_bytes()
                &&& r.1@[1]@ == "To".spec_bytes()
                &&& r.1@[2]@ == "Date".spec_bytes()
                &&& r.1@[3]@ == "Subject".spec_bytes()
                &&& r.1@[4]@ == "From".spec_bytes()
            },
        },
        match canonicalization {
            Some(c) => r.2 == c,
            None => r.2 == (CanonicalizationPair {
                header: Canonicalization::Simple,
                body: Canonicalization::Relaxed,
            }),
        },
{
    let sdid = match sdid {
        Some(d) => d,
        None => server_name.clone(),
    };
    let headers = match headers_field {
        Some(hs) => hs,
        None => {
            let mut hs: Vec<Vec<u8>> = Vec::new();
            hs.push(text_bytes("From"));
            hs.push(text_bytes("To"));
            hs.push(text_bytes("Date"));
            hs.push(text_bytes("Subject"));
            hs.push(text_bytes("From"));
            hs
        },
    };
    let canon = match canonicalization {
        Some(c) => c,
        None => CanonicalizationPair {
            header: Canonicalization::Simple,
            body: Canonicalization::Relaxed,
        },
    };
    (sdid, headers, canon)
}

} // verus!
