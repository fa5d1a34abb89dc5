use vsmtp_core::codec::split_window;
use vsmtp_core::command::parse_command_line;
use vsmtp_core::context::{Stage, TransactionType, TransportTag};
use vsmtp_core::reply::{CodeID, Reply};
use vsmtp_core::rules::{
    Directive, DirectiveKind, ExecutionStage, Hierarchy, ReplyOrCode, Script, StageRules, Status,
};
use vsmtp_core::session::{Session, SessionConfig, Transition};

fn empty_hierarchy() -> Hierarchy {
    Hierarchy {
        root_filter: Script { stages: Vec::new() },
        fallback: Script { stages: Vec::new() },
        domains: Vec::new(),
    }
}

fn config_with(handled: &[&str]) -> SessionConfig {
    SessionConfig {
        server_name: b"testserver.com".to_vec(),
        rcpt_count_max: 32,
        soft_count: 5,
        hard_count: 10,
        delay_ms: 100,
        message_size_limit: 10_000_000,
        tls_available: false,
        auth_enabled: false,
        auth_dangerous_in_clear: false,
        auth_mechanisms: vec![b"PLAIN".to_vec(), b"LOGIN".to_vec()],
        handled_domains: handled.iter().map(|d| d.as_bytes().to_vec()).collect(),
        hierarchy: empty_hierarchy(),
        codes: Vec::new(),
    }
}

fn send(session: &mut Session, line: &str) -> Transition {
    let cmd = parse_command_line(&line.as_bytes().to_vec()).unwrap();
    session.handle_command(&cmd)
}

fn reply_text(t: &Transition) -> String {
    String::from_utf8(t.reply.as_ref().unwrap().render()).unwrap()
}

#[test]
fn basic_ingest_scenario() {
    let mut s = Session::accept(config_with(&[]), 0, 1);
    let greeting = s.on_accept();
    assert_eq!(reply_text(&greeting), "220 testserver.com Service ready\r\n");

    assert_eq!(reply_text(&send(&mut s, "HELO foo\r\n")), "250 Ok\r\n");
    assert_eq!(reply_text(&send(&mut s, "MAIL FROM:<j@d>\r\n")), "250 Ok\r\n");
    assert_eq!(reply_text(&send(&mut s, "RCPT TO:<a@b>\r\n")), "250 Ok\r\n");
    assert_eq!(
        reply_text(&send(&mut s, "DATA\r\n")),
        "354 Start mail input; end with <CRLF>.<CRLF>\r\n",
    );

    let message = vec![b".\r\n".to_vec()];
    let (reply, envelopes) = s.on_message(&message);
    assert_eq!(reply_text(&reply), "250 Ok\r\n");
    assert_eq!(envelopes.len(), 1);
    assert_eq!(envelopes[0].ctx.stage, Stage::Finished);
    assert_eq!(envelopes[0].ctx.forward_paths.len(), 1);
    assert_eq!(envelopes[0].ctx.forward_paths[0].address.domain, b"b".to_vec());

    let quit = send(&mut s, "QUIT\r\n");
    assert_eq!(reply_text(&quit), "221 Service closing transmission channel\r\n");
    assert!(quit.close);
}

#[test]
fn pipelined_ehlo_scenario() {
    let mut s = Session::accept(config_with(&[]), 0, 2);
    s.on_accept();

    let wire = ["EHLO foo\r\n", "MAIL FROM:<j@d>\r\n", "RCPT TO:<a@b>\r\n", "DATA\r\n"].concat();
    let (lines, rest) = split_window(&wire.as_bytes().to_vec());
    assert!(rest.is_empty());
    let cmds: Vec<_> = lines.iter().map(parse_command_line).collect();

    let replies = s.handle_batch(&cmds);
    assert_eq!(replies.len(), 4);
    assert!(reply_text(&replies[0]).contains("PIPELINING"));
    assert!(reply_text(&replies[0]).starts_with("250-testserver.com\r\n"));
    assert_eq!(reply_text(&replies[1]), "250 Ok\r\n");
    assert_eq!(reply_text(&replies[2]), "250 Ok\r\n");
    assert_eq!(
        reply_text(&replies[3]),
        "354 Start mail input; end with <CRLF>.<CRLF>\r\n",
    );
    assert!(!replies.iter().any(|t| t.close));
}

#[test]
fn rcpt_cap_scenario() {
    let mut config = config_with(&[]);
    config.rcpt_count_max = 5;
    let mut s = Session::accept(config, 0, 3);
    s.on_accept();
    send(&mut s, "HELO h\r\n");
    send(&mut s, "MAIL FROM:<j@d>\r\n");
    for i in 0..5 {
        let line = format!("RCPT TO:<r{i}@d>\r\n");
        assert_eq!(reply_text(&send(&mut s, &line)), "250 Ok\r\n");
    }
    let sixth = send(&mut s, "RCPT TO:<r5@d>\r\n");
    assert_eq!(
        reply_text(&sixth),
        "452 Requested action not taken: too many recipients\r\n",
    );
    assert_eq!(s.ctx.forward_paths.len(), 5);
}

#[test]
fn hard_error_scenario() {
    let mut config = config_with(&[]);
    config.soft_count = 5;
    config.hard_count = 10;
    let mut s = Session::accept(config, 0, 4);
    s.on_accept();

    for i in 0..10 {
        let t = send(&mut s, "gibberish\r\n");
        assert_eq!(reply_text(&t), "500 Syntax error command unrecognized\r\n");
        assert!(!t.close);
        // Past the soft budget every further error reply is delayed.
        assert_eq!(t.delay, i >= 5);
    }
    let eleventh = send(&mut s, "gibberish\r\n");
    assert_eq!(
        reply_text(&eleventh),
        "451-Syntax error command unrecognized\r\n451 Too many errors from the client\r\n",
    );
    assert!(eleventh.close);
    assert!(s.closed);
}

#[test]
fn internal_split_scenario() {
    let mut s = Session::accept(config_with(&["ex.com"]), 0, 5);
    s.on_accept();
    send(&mut s, "HELO h\r\n");
    send(&mut s, "MAIL FROM:<u@ex.com>\r\n");
    assert_eq!(reply_text(&send(&mut s, "RCPT TO:<a@ex.com>\r\n")), "250 Ok\r\n");
    assert_eq!(reply_text(&send(&mut s, "RCPT TO:<b@other.com>\r\n")), "250 Ok\r\n");

    let internal = s.internal.as_ref().expect("the internal recipient split the transaction");
    assert!(matches!(internal.transaction_type, Some(TransactionType::Internal)));
    assert_eq!(internal.forward_paths.len(), 1);
    assert_eq!(internal.forward_paths[0].address.domain, b"ex.com".to_vec());
    assert!(matches!(
        s.ctx.transaction_type,
        Some(TransactionType::Outgoing { ref domain }) if domain == &b"ex.com".to_vec(),
    ));

    assert_eq!(
        reply_text(&send(&mut s, "DATA\r\n")),
        "354 Start mail input; end with <CRLF>.<CRLF>\r\n",
    );
    let message = vec![b"hi\r\n".to_vec(), b".\r\n".to_vec()];
    let (reply, envelopes) = s.on_message(&message);
    assert_eq!(reply_text(&reply), "250 Ok\r\n");
    assert_eq!(envelopes.len(), 2);

    let primary = &envelopes[0];
    let split = &envelopes[1];
    assert!(matches!(
        primary.ctx.transaction_type,
        Some(TransactionType::Outgoing { ref domain }) if domain == &b"ex.com".to_vec(),
    ));
    assert_eq!(primary.ctx.forward_paths[0].address.domain, b"other.com".to_vec());
    assert!(matches!(split.ctx.transaction_type, Some(TransactionType::Internal)));
    assert_eq!(split.ctx.forward_paths[0].address.domain, b"ex.com".to_vec());
    // The split message carries a fresh identifier of its own.
    assert_ne!(primary.ctx.message_uuid, split.ctx.message_uuid);
}

#[test]
fn ill_sequenced_commands_leave_state_alone() {
    let mut s = Session::accept(config_with(&[]), 0, 6);
    s.on_accept();
    assert_eq!(
        reply_text(&send(&mut s, "RCPT TO:<a@b>\r\n")),
        "503 Bad sequence of commands\r\n",
    );
    assert_eq!(
        reply_text(&send(&mut s, "MAIL FROM:<j@d>\r\n")),
        "503 Bad sequence of commands\r\n",
    );
    assert_eq!(
        reply_text(&send(&mut s, "DATA\r\n")),
        "503 Bad sequence of commands\r\n",
    );
    assert_eq!(s.ctx.stage, Stage::Connect);
    assert_eq!(reply_text(&send(&mut s, "NOOP\r\n")), "250 Ok\r\n");
    assert_eq!(
        reply_text(&send(&mut s, "STARTTLS\r\n")),
        "454 TLS not available due to temporary reason\r\n",
    );
    assert_eq!(
        reply_text(&send(&mut s, "HELP\r\n")),
        "214 joining us https://viridit.com/support\r\n",
    );
    assert_eq!(
        reply_text(&send(&mut s, "VRFY who\r\n")),
        "502 Command not implemented\r\n",
    );
}

#[test]
fn rset_preserves_helo_and_drops_the_transaction() {
    let mut s = Session::accept(config_with(&[]), 0, 7);
    s.on_accept();
    send(&mut s, "HELO h\r\n");
    send(&mut s, "MAIL FROM:<j@d>\r\n");
    send(&mut s, "RCPT TO:<a@b>\r\n");
    let t = send(&mut s, "RSET\r\n");
    assert_eq!(reply_text(&t), "250 Ok\r\n");
    assert_eq!(s.ctx.stage, Stage::Helo);
    assert!(s.ctx.reverse_path.is_none());
    assert!(s.ctx.forward_paths.is_empty());
    // The announcement survives: MAIL FROM is legal again at once.
    assert_eq!(reply_text(&send(&mut s, "MAIL FROM:<k@d>\r\n")), "250 Ok\r\n");
}

#[test]
fn oversized_message_is_refused_with_a_permanent_error() {
    let mut config = config_with(&[]);
    config.message_size_limit = 10;
    let mut s = Session::accept(config, 0, 8);
    s.on_accept();
    send(&mut s, "HELO h\r\n");
    send(&mut s, "MAIL FROM:<j@d>\r\n");
    send(&mut s, "RCPT TO:<a@b>\r\n");
    send(&mut s, "DATA\r\n");
    let message = vec![b"aaaaaaaaaaaaaaaa\r\n".to_vec(), b".\r\n".to_vec()];
    let (reply, envelopes) = s.on_message(&message);
    assert_eq!(
        reply_text(&reply),
        "552 message size exceeds fixed maximum message size\r\n",
    );
    assert!(envelopes.is_empty());
}

#[test]
fn ehlo_banner_advertises_starttls_only_when_available() {
    let mut config = config_with(&[]);
    config.tls_available = true;
    let mut s = Session::accept(config, 0, 9);
    s.on_accept();
    let t = send(&mut s, "EHLO client\r\n");
    let banner = reply_text(&t);
    assert!(banner.contains("STARTTLS"));
    assert!(banner.contains("8BITMIME"));
    assert!(banner.contains("SMTPUTF8"));
    assert!(banner.ends_with("250 PIPELINING\r\n"));
}

#[test]
fn recipients_can_be_removed_from_the_envelope() {
    let mut s = Session::accept(config_with(&[]), 0, 10);
    s.on_accept();
    send(&mut s, "HELO h\r\n");
    send(&mut s, "MAIL FROM:<j@d>\r\n");
    send(&mut s, "RCPT TO:<a@b>\r\n");
    send(&mut s, "RCPT TO:<c@b>\r\n");

    let gone = vsmtp_core::address::parse_address(&b"a@b".to_vec()).unwrap();
    assert!(s.ctx.remove_forward_path(&gone));
    assert_eq!(s.ctx.forward_paths.len(), 1);
    assert_eq!(s.ctx.forward_paths[0].address.local, b"c".to_vec());
    // A second removal of the same address finds nothing.
    assert!(!s.ctx.remove_forward_path(&gone));

    // Removing the last recipient puts the transaction back before RCPT.
    let last = vsmtp_core::address::parse_address(&b"c@b".to_vec()).unwrap();
    assert!(s.ctx.remove_forward_path(&last));
    assert_eq!(s.ctx.stage, Stage::MailFrom);
}

#[test]
fn the_reverse_path_can_be_rewritten() {
    let mut s = Session::accept(config_with(&[]), 0, 11);
    s.on_accept();
    send(&mut s, "HELO h\r\n");
    send(&mut s, "MAIL FROM:<j@d>\r\n");
    let new_sender = vsmtp_core::address::parse_address(&b"k@e".to_vec()).unwrap();
    s.ctx.rewrite_reverse_path(Some(new_sender));
    match &s.ctx.reverse_path {
        Some(Some(a)) => {
            assert_eq!(a.local, b"k".to_vec());
            assert_eq!(a.domain, b"e".to_vec());
        }
        _ => panic!("expected a rewritten sender"),
    }
    // The null sender is a valid rewrite too.
    s.ctx.rewrite_reverse_path(None);
    assert!(matches!(s.ctx.reverse_path, Some(None)));
}

#[test]
fn a_rule_denial_refuses_and_leaves_the_stage() {
    let mut config = config_with(&[]);
    config.hierarchy.root_filter = Script {
        stages: vec![StageRules {
            stage: ExecutionStage::MailFrom,
            directives: vec![Directive {
                name: b"refuse senders".to_vec(),
                kind: DirectiveKind::Rule,
                outcome: Status::Deny(ReplyOrCode::Code(CodeID::Denied)),
            }],
        }],
    };
    let mut s = Session::accept(config, 0, 12);
    s.on_accept();
    send(&mut s, "HELO h\r\n");
    let t = send(&mut s, "MAIL FROM:<j@d>\r\n");
    assert_eq!(
        reply_text(&t),
        "554 permanent problems with the remote server\r\n",
    );
    assert!(t.close);
    // The denied advance is rolled back: the stage stands where it was.
    assert_eq!(s.ctx.stage, Stage::Helo);
    assert!(s.ctx.reverse_path.is_none());
}

#[test]
fn an_accepting_rule_carries_its_own_reply() {
    let mut config = config_with(&[]);
    config.hierarchy.root_filter = Script {
        stages: vec![StageRules {
            stage: ExecutionStage::Connect,
            directives: vec![Directive {
                name: b"greet warmly".to_vec(),
                kind: DirectiveKind::Rule,
                outcome: Status::Accept(ReplyOrCode::Custom(Reply {
                    code: 220,
                    lines: vec![b"custom greeting".to_vec()],
                })),
            }],
        }],
    };
    let mut s = Session::accept(config, 0, 13);
    let t = s.on_accept();
    assert_eq!(reply_text(&t), "220 custom greeting\r\n");
    assert!(!t.close);
}

#[test]
fn the_auth_extension_obeys_the_clear_channel_gate() {
    let mut config = config_with(&[]);
    config.auth_enabled = true;
    config.auth_dangerous_in_clear = false;
    let mut s = Session::accept(config, 0, 14);
    s.on_accept();
    let banner = reply_text(&send(&mut s, "EHLO c\r\n"));
    // On a clear channel without the dangerous-in-clear allowance, AUTH is
    // not offered.
    assert!(!banner.contains("AUTH"));

    let mut config = config_with(&[]);
    config.auth_enabled = true;
    config.auth_dangerous_in_clear = true;
    let mut s = Session::accept(config, 0, 15);
    s.on_accept();
    let banner = reply_text(&send(&mut s, "EHLO c\r\n"));
    assert!(banner.contains("AUTH PLAIN LOGIN"));
}

#[test]
fn a_stage_timeout_closes_the_connection() {
    let mut s = Session::accept(config_with(&[]), 0, 16);
    s.on_accept();
    send(&mut s, "HELO h\r\n");
    let t = s.on_timeout();
    assert_eq!(
        reply_text(&t),
        "421 Service not available, closing transmission channel\r\n",
    );
    assert!(t.close);
    assert!(s.closed);
}

#[test]
fn recipients_default_to_the_remote_transport_and_can_be_redirected() {
    let mut s = Session::accept(config_with(&[]), 0, 17);
    s.on_accept();
    send(&mut s, "HELO h\r\n");
    send(&mut s, "MAIL FROM:<j@d>\r\n");
    send(&mut s, "RCPT TO:<a@b>\r\n");
    send(&mut s, "RCPT TO:<c@b>\r\n");
    assert!(matches!(s.ctx.forward_paths[0].transport, TransportTag::Remote));

    // A rule points the first recipient at a local maildir.
    s.ctx.set_rcpt_transport(
        0,
        TransportTag::Maildir { path: b"/home/a/Maildir".to_vec() },
    );
    assert!(matches!(
        &s.ctx.forward_paths[0].transport,
        TransportTag::Maildir { path } if path == &b"/home/a/Maildir".to_vec(),
    ));
    // The other recipient and the addresses are untouched.
    assert!(matches!(s.ctx.forward_paths[1].transport, TransportTag::Remote));
    assert_eq!(s.ctx.forward_paths[0].address.local, b"a".to_vec());
}
