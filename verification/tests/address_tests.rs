use vsmtp_core::address::{is_handled_domain, parent_domain, parse_address};
use vsmtp_core::config::{
    default_timeout, ConnectionManager, FieldQueueDelivery, FieldQueueWorking,
    FieldServerSMTPError, FieldServerSMTPTimeoutClient, FieldServerSystemThreadPool,
};
use vsmtp_core::parser::BasicParser;
use vsmtp_core::reply::{default_reply, CodeID, Reply};

#[test]
fn addresses_split_at_the_last_separator() {
    let a = parse_address(&b"john.doe@Example.com".to_vec()).unwrap();
    assert_eq!(a.local, b"john.doe".to_vec());
    // Domains are held lower-cased: they match without regard to case.
    assert_eq!(a.domain, b"example.com".to_vec());

    let quoted = parse_address(&b"odd@name@ex.com".to_vec()).unwrap();
    assert_eq!(quoted.local, b"odd@name".to_vec());
    assert_eq!(quoted.domain, b"ex.com".to_vec());

    assert!(parse_address(&b"nodomain@".to_vec()).is_err());
    assert!(parse_address(&b"@nolocal".to_vec()).is_err());
    assert!(parse_address(&b"noseparator".to_vec()).is_err());
}

#[test]
fn parent_chain_walks_one_label_at_a_time() {
    assert_eq!(parent_domain(&b"a.b.example.com".to_vec()), Some(b"b.example.com".to_vec()));
    assert_eq!(parent_domain(&b"example.com".to_vec()), Some(b"com".to_vec()));
    assert_eq!(parent_domain(&b"com".to_vec()), None);
}

#[test]
fn handled_domains_cover_their_subdomains() {
    let handled = vec![b"example.com".to_vec()];
    assert!(is_handled_domain(&handled, &b"example.com".to_vec()));
    assert!(is_handled_domain(&handled, &b"mail.example.com".to_vec()));
    assert!(is_handled_domain(&handled, &b"deep.mail.example.com".to_vec()));
    assert!(!is_handled_domain(&handled, &b"example.org".to_vec()));
    assert!(!is_handled_domain(&handled, &b"com".to_vec()));
}

#[test]
fn replies_render_with_code_and_terminator() {
    let r = default_reply(CodeID::Greetings, &b"testserver.com".to_vec());
    assert_eq!(r.render(), b"220 testserver.com Service ready\r\n".to_vec());

    let r = default_reply(CodeID::TooManyRecipients, &b"x".to_vec());
    assert_eq!(
        r.render(),
        b"452 Requested action not taken: too many recipients\r\n".to_vec(),
    );
}

#[test]
fn extended_replies_take_the_footer_code_on_every_line() {
    let base = default_reply(CodeID::Unrecognized, &b"x".to_vec());
    let footer = default_reply(CodeID::TooManyError, &b"x".to_vec());
    let merged = base.extended(&footer);
    assert_eq!(
        merged.render(),
        b"451-Syntax error command unrecognized\r\n451 Too many errors from the client\r\n"
            .to_vec(),
    );
}

#[test]
fn multiline_replies_separate_with_hyphens() {
    let r = Reply {
        code: 250,
        lines: vec![b"first".to_vec(), b"second".to_vec(), b"last".to_vec()],
    };
    assert_eq!(r.render(), b"250-first\r\n250-second\r\n250 last\r\n".to_vec());
}

#[test]
fn standard_configuration_values() {
    assert_eq!(default_timeout(), 30_000);
    let pool = FieldServerSystemThreadPool::standard();
    assert_eq!((pool.receiver, pool.processing, pool.delivery), (6, 6, 6));
    assert_eq!(FieldQueueWorking::standard().channel_size, 32);
    let delivery = FieldQueueDelivery::standard();
    assert_eq!(delivery.deferred_retry_max, 100);
    assert_eq!(delivery.deferred_retry_period_ms, 10_000);
    let budget = FieldServerSMTPError::standard();
    assert_eq!((budget.soft_count, budget.hard_count, budget.delay_ms), (10, 20, 5000));
    let timeouts = FieldServerSMTPTimeoutClient::standard();
    assert_eq!(timeouts.connect_ms, 300_000);
}

#[test]
fn connection_manager_remembers_its_path() {
    let cm = ConnectionManager::new(b"/tmp/mails.db".to_vec());
    assert_eq!(cm.path, b"/tmp/mails.db".to_vec());
}

#[test]
fn basic_parser_splits_headers_from_body() {
    let raw: Vec<Vec<u8>> = vec![
        b"From: a@b\n".to_vec(),
        b"Subject: hi\n".to_vec(),
        b"\n".to_vec(),
        b"body line one\n".to_vec(),
        b"body line two\n".to_vec(),
    ];
    let parsed = BasicParser.parse_sync(raw);
    assert_eq!(parsed.headers, vec![b"From: a@b\n".to_vec(), b"Subject: hi\n".to_vec()]);
    assert_eq!(
        parsed.body,
        vec![b"body line one\n".to_vec(), b"body line two\n".to_vec()],
    );
}

#[test]
fn basic_parser_accepts_a_body_without_blank_separator() {
    let raw: Vec<Vec<u8>> = vec![b"From: a@b\n".to_vec(), b"no header marker\n".to_vec()];
    let parsed = BasicParser.parse_sync(raw);
    assert_eq!(parsed.headers, vec![b"From: a@b\n".to_vec()]);
    // The line that can only be body already belongs to the body.
    assert_eq!(parsed.body, vec![b"no header marker\n".to_vec()]);
}
