use vsmtp_core::context::{DkimStatus, MailContext};
use vsmtp_core::dkim::{
    classify_dns_failure, dns_key_record_name, parse_canonicalization, select_key_records,
    settle_verdict, signing_defaults, verify_cached, Canonicalization, DnsFailureKind, KeyPolicy,
    SignatureCheck,
};

fn verified(sdid: &str, auid: &str, debug_flag: bool) -> SignatureCheck {
    SignatureCheck::Verified {
        sdid: sdid.as_bytes().to_vec(),
        auid: auid.as_bytes().to_vec(),
        debug_flag,
    }
}

#[test]
fn first_passing_signature_wins() {
    let checks = vec![
        SignatureCheck::ParseFailed,
        verified("github.com", "@github.com", false),
        SignatureCheck::Mismatch,
    ];
    let verdict = settle_verdict(&checks, 5);
    assert_eq!(verdict.status, DkimStatus::Pass);
    assert_eq!(verdict.sdid, b"github.com".to_vec());
    assert_eq!(verdict.auid, b"@github.com".to_vec());
}

#[test]
fn last_error_decides_when_nothing_passes() {
    let checks = vec![SignatureCheck::ParseFailed, SignatureCheck::Mismatch];
    assert_eq!(settle_verdict(&checks, 5).status, DkimStatus::Fail);

    let checks = vec![SignatureCheck::Mismatch, SignatureCheck::TempDnsError];
    assert_eq!(settle_verdict(&checks, 5).status, DkimStatus::TempError);

    let checks = vec![SignatureCheck::PermDnsError, SignatureCheck::Expired];
    assert_eq!(settle_verdict(&checks, 5).status, DkimStatus::PermError);

    let checks = vec![SignatureCheck::KeyParseFailed];
    assert_eq!(settle_verdict(&checks, 5).status, DkimStatus::Neutral);
}

#[test]
fn no_signature_at_all_is_its_own_status() {
    assert_eq!(settle_verdict(&Vec::new(), 5).status, DkimStatus::NoSignature);
    // Expired signatures and debug-flagged keys are passed over silently.
    let checks = vec![SignatureCheck::Expired, verified("d", "@d", true)];
    assert_eq!(settle_verdict(&checks, 5).status, DkimStatus::NoSignature);
}

#[test]
fn only_the_first_headers_are_considered() {
    let checks = vec![
        SignatureCheck::Mismatch,
        verified("late.com", "@late.com", false),
    ];
    // With the list truncated to one header, the passing signature is
    // out of reach and the mismatch decides.
    assert_eq!(settle_verdict(&checks, 1).status, DkimStatus::Fail);
}

#[test]
fn second_verification_returns_the_cache_and_adds_no_header() {
    let mut ctx = MailContext::connect(b"srv".to_vec(), 0, 1);
    let checks = vec![verified("ex.com", "@ex.com", false)];

    let (first, appended) = verify_cached(&mut ctx, &checks, 5);
    assert!(appended);
    assert_eq!(first.status, DkimStatus::Pass);

    // Even contradictory inputs cannot disturb the cached verdict.
    let other = vec![SignatureCheck::Mismatch];
    let (second, appended_again) = verify_cached(&mut ctx, &other, 5);
    assert!(!appended_again);
    assert_eq!(second.status, DkimStatus::Pass);
    assert_eq!(second.sdid, b"ex.com".to_vec());
}

#[test]
fn canonicalization_notation() {
    let both = parse_canonicalization(&b"simple/relaxed".to_vec()).unwrap();
    assert_eq!(both.header, Canonicalization::Simple);
    assert_eq!(both.body, Canonicalization::Relaxed);

    let single = parse_canonicalization(&b"relaxed".to_vec()).unwrap();
    assert_eq!(single.header, Canonicalization::Relaxed);
    assert_eq!(single.body, Canonicalization::Simple);

    assert!(parse_canonicalization(&b"loose/relaxed".to_vec()).is_none());
    assert!(parse_canonicalization(&b"simple/relaxed/extra".to_vec()).is_none());
}

#[test]
fn key_records_are_looked_up_under_domainkey() {
    let name = dns_key_record_name(&b"2022-09".to_vec(), &b"testserver.com".to_vec());
    assert_eq!(name, b"2022-09._domainkey.testserver.com".to_vec());
}

#[test]
fn signing_falls_back_to_the_documented_defaults() {
    let (sdid, headers, canon) = signing_defaults(None, &b"testserver.com".to_vec(), None, None);
    assert_eq!(sdid, b"testserver.com".to_vec());
    let names: Vec<&[u8]> = headers.iter().map(|h| h.as_slice()).collect();
    assert_eq!(
        names,
        vec![&b"From"[..], &b"To"[..], &b"Date"[..], &b"Subject"[..], &b"From"[..]],
    );
    assert_eq!(canon.header, Canonicalization::Simple);
    assert_eq!(canon.body, Canonicalization::Relaxed);

    let (sdid, _, _) = signing_defaults(
        Some(b"ex.com".to_vec()),
        &b"testserver.com".to_vec(),
        None,
        None,
    );
    assert_eq!(sdid, b"ex.com".to_vec());
}

#[test]
fn key_record_policy_keeps_first_or_all() {
    let records = vec![b"k1".to_vec(), b"k2".to_vec(), b"k3".to_vec()];
    assert_eq!(select_key_records(KeyPolicy::First, &records), vec![b"k1".to_vec()]);
    assert_eq!(select_key_records(KeyPolicy::Cycle, &records), records);
    assert!(select_key_records(KeyPolicy::First, &Vec::new()).is_empty());
    assert!(select_key_records(KeyPolicy::Cycle, &Vec::new()).is_empty());
}

#[test]
fn dns_failures_classify_by_kind() {
    for kind in [
        DnsFailureKind::Message,
        DnsFailureKind::Msg,
        DnsFailureKind::NoConnections,
        DnsFailureKind::NoRecordsFound,
    ] {
        assert!(matches!(classify_dns_failure(kind), SignatureCheck::PermDnsError));
    }
    for kind in [DnsFailureKind::Io, DnsFailureKind::Proto, DnsFailureKind::Timeout] {
        assert!(matches!(classify_dns_failure(kind), SignatureCheck::TempDnsError));
    }
}
