use vsmtp_core::context::{MailContext, Stage, TransactionType};
use vsmtp_core::reply::CodeID;
use vsmtp_core::rules::{
    apply_delegation_resumption, execute_directives, get_directives_for_smtp_state,
    hierarchy_valid,
    parse_delegation_header, parse_stage_name, parse_uuid, resume_after_delegation, run_when,
    DelegationInfo, Directive, DirectiveKind, DomainDirectives, ExecutionStage, Hierarchy,
    ReplyOrCode, Script, ScriptRef, StageRules, Status,
};

fn rule(name: &str, outcome: Status) -> Directive {
    Directive { name: name.as_bytes().to_vec(), kind: DirectiveKind::Rule, outcome }
}

fn action(name: &str) -> Directive {
    Directive {
        name: name.as_bytes().to_vec(),
        kind: DirectiveKind::Action,
        // An action observes only; what its body evaluates to never ends
        // the stage.
        outcome: Status::Deny(ReplyOrCode::Code(CodeID::Denied)),
    }
}

fn delegate(name: &str) -> Directive {
    Directive {
        name: name.as_bytes().to_vec(),
        kind: DirectiveKind::Delegate,
        outcome: Status::Next,
    }
}

fn script(stage: ExecutionStage, directives: Vec<Directive>) -> Script {
    Script { stages: vec![StageRules { stage, directives }] }
}

fn empty_script() -> Script {
    Script { stages: Vec::new() }
}

fn domain_entry(domain: &str, incoming: Script, outgoing: Script, internal: Script)
    -> DomainDirectives {
    DomainDirectives { domain: domain.as_bytes().to_vec(), incoming, outgoing, internal }
}

fn ctx_at_postq(sender: Option<&str>, txn: TransactionType) -> MailContext {
    let mut ctx = MailContext::connect(b"srv".to_vec(), 0, 1);
    ctx.set_helo(b"client".to_vec(), true);
    let reverse = sender.map(|d| {
        vsmtp_core::address::parse_address(&format!("user@{d}").as_bytes().to_vec()).unwrap()
    });
    ctx.to_mail_from(reverse, 99);
    ctx.set_transaction_type(txn);
    ctx.add_forward_path(
        vsmtp_core::address::parse_address(&b"rcpt@dest.com".to_vec()).unwrap(),
    );
    ctx
}

#[test]
fn batches_short_circuit_on_the_first_verdict() {
    let ds = vec![
        action("log"),
        rule("pass", Status::Next),
        rule("deny", Status::Deny(ReplyOrCode::Code(CodeID::Denied))),
        rule("late accept", Status::Accept(ReplyOrCode::Code(CodeID::Okay))),
    ];
    assert!(matches!(execute_directives(&ds), Status::Deny(_)));

    let all_next = vec![action("log"), rule("pass", Status::Next)];
    assert!(matches!(execute_directives(&all_next), Status::Next));

    // An action never decides, whatever its body evaluated to.
    let only_actions = vec![action("one"), action("two")];
    assert!(matches!(execute_directives(&only_actions), Status::Next));

    // A delegation suspends the batch.
    let with_delegate = vec![delegate("av"), rule("after", Status::Next)];
    assert!(matches!(execute_directives(&with_delegate), Status::DelegationResult));
}

#[test]
fn stage_selection_follows_the_classification() {
    let h = Hierarchy {
        root_filter: empty_script(),
        fallback: empty_script(),
        domains: vec![domain_entry("ex.com", empty_script(), empty_script(), empty_script())],
    };

    // Pre-transaction stages always run the root filter.
    let ctx = MailContext::connect(b"srv".to_vec(), 0, 1);
    assert_eq!(
        get_directives_for_smtp_state(&h, &ctx, ExecutionStage::Connect),
        Ok(ScriptRef::Root),
    );

    // A handled sender runs its own outgoing or internal script.
    let outgoing = ctx_at_postq(
        Some("ex.com"),
        TransactionType::Outgoing { domain: b"ex.com".to_vec() },
    );
    assert_eq!(
        get_directives_for_smtp_state(&h, &outgoing, ExecutionStage::PostQ),
        Ok(ScriptRef::DomainOutgoing(0)),
    );
    let internal = ctx_at_postq(Some("ex.com"), TransactionType::Internal);
    assert_eq!(
        get_directives_for_smtp_state(&h, &internal, ExecutionStage::PostQ),
        Ok(ScriptRef::DomainInternal(0)),
    );

    // A subdomain of a handled domain walks up to its parent's entry.
    let sub = ctx_at_postq(
        Some("mail.ex.com"),
        TransactionType::Outgoing { domain: b"mail.ex.com".to_vec() },
    );
    assert_eq!(
        get_directives_for_smtp_state(&h, &sub, ExecutionStage::PostQ),
        Ok(ScriptRef::DomainOutgoing(0)),
    );

    // A foreign sender runs the incoming script of the handled recipient.
    let incoming = ctx_at_postq(
        Some("other.org"),
        TransactionType::Incoming { handled_domain: Some(b"ex.com".to_vec()) },
    );
    assert_eq!(
        get_directives_for_smtp_state(&h, &incoming, ExecutionStage::PostQ),
        Ok(ScriptRef::DomainIncoming(0)),
    );

    // The relay-denied path runs the root filter.
    let foreign = ctx_at_postq(
        Some("other.org"),
        TransactionType::Incoming { handled_domain: None },
    );
    assert_eq!(
        get_directives_for_smtp_state(&h, &foreign, ExecutionStage::PostQ),
        Ok(ScriptRef::Root),
    );

    // A contradictory pairing falls back.
    let contradiction = ctx_at_postq(Some("other.org"), TransactionType::Internal);
    assert_eq!(
        get_directives_for_smtp_state(&h, &contradiction, ExecutionStage::PostQ),
        Ok(ScriptRef::Fallback),
    );
}

#[test]
fn terminal_verdicts_are_memoized() {
    let h = Hierarchy {
        root_filter: script(
            ExecutionStage::Connect,
            vec![rule("accept all", Status::Accept(ReplyOrCode::Code(CodeID::Okay)))],
        ),
        fallback: empty_script(),
        domains: Vec::new(),
    };
    let ctx = MailContext::connect(b"srv".to_vec(), 0, 1);
    let mut skipped: Option<Status> = None;
    let first = run_when(&h, &ctx, &mut skipped, ExecutionStage::Connect);
    assert!(matches!(first, Status::Accept(_)));
    assert!(matches!(skipped, Some(Status::Accept(_))));
    // The next stage short-circuits to the memoized verdict without rules.
    let second = run_when(&h, &ctx, &mut skipped, ExecutionStage::Helo);
    assert!(matches!(second, Status::Accept(_)));
}

#[test]
fn stages_without_rules_continue() {
    let h = Hierarchy {
        root_filter: empty_script(),
        fallback: empty_script(),
        domains: Vec::new(),
    };
    let ctx = MailContext::connect(b"srv".to_vec(), 0, 1);
    let mut skipped: Option<Status> = None;
    assert!(matches!(
        run_when(&h, &ctx, &mut skipped, ExecutionStage::Connect),
        Status::Next,
    ));
    assert!(skipped.is_none());
}

#[test]
fn resumption_runs_only_the_later_rules() {
    let postq = script(
        ExecutionStage::PostQ,
        vec![
            rule("before", Status::Deny(ReplyOrCode::Code(CodeID::Denied))),
            delegate("antivirus"),
            action("log"),
            rule("after", Status::Accept(ReplyOrCode::Code(CodeID::Okay))),
        ],
    );
    let info = DelegationInfo {
        stage: ExecutionStage::PostQ,
        directive: b"antivirus".to_vec(),
        uuid: 42,
    };
    // Resumption starts strictly after the delegating directive: the
    // denying rule before it never runs again.
    let resumed = resume_after_delegation(&postq, ExecutionStage::PostQ, &info).unwrap();
    assert!(matches!(resumed, Status::Accept(_)));

    // A stage that does not match the header is refused.
    assert!(resume_after_delegation(&postq, ExecutionStage::Delivery, &info).is_err());

    // So is a directive name that no rule bears.
    let unknown = DelegationInfo {
        stage: ExecutionStage::PostQ,
        directive: b"nonesuch".to_vec(),
        uuid: 42,
    };
    assert!(resume_after_delegation(&postq, ExecutionStage::PostQ, &unknown).is_err());
}

#[test]
fn delegation_headers_parse() {
    let value = b" stage=postq; directive=antivirus; id=00000000-0000-0000-0000-00000000002a"
        .to_vec();
    let info = parse_delegation_header(&value).unwrap();
    assert_eq!(info.stage, ExecutionStage::PostQ);
    assert_eq!(info.directive, b"antivirus".to_vec());
    assert_eq!(info.uuid, 42);

    // A missing key refuses the whole header.
    assert!(parse_delegation_header(&b"stage=postq; directive=x".to_vec()).is_none());
    // An unknown stage name refuses it too.
    assert!(
        parse_delegation_header(&b"stage=nowhere; directive=x; id=1".to_vec()).is_none()
    );
}

#[test]
fn stage_names_round_trip() {
    for (name, stage) in [
        ("connect", ExecutionStage::Connect),
        ("helo", ExecutionStage::Helo),
        ("authenticate", ExecutionStage::Authenticate),
        ("mail", ExecutionStage::MailFrom),
        ("rcpt", ExecutionStage::RcptTo),
        ("preq", ExecutionStage::PreQ),
        ("postq", ExecutionStage::PostQ),
        ("delivery", ExecutionStage::Delivery),
    ] {
        assert_eq!(parse_stage_name(&name.as_bytes().to_vec()), Some(stage));
    }
    assert_eq!(parse_stage_name(&b"nowhere".to_vec()), None);
}

#[test]
fn identifiers_parse_only_in_canonical_form() {
    assert_eq!(parse_uuid(&b"00000000-0000-0000-0000-0000000000ff".to_vec()), Some(255));
    assert_eq!(
        parse_uuid(&b"ffffffff-ffff-ffff-ffff-ffffffffffff".to_vec()),
        Some(u128::MAX),
    );
    assert_eq!(
        parse_uuid(&b"01234567-89ab-cdef-0123-456789abcdef".to_vec()),
        Some(0x0123_4567_89ab_cdef_0123_4567_89ab_cdef),
    );
    // Anything but the five hyphen-separated groups is refused.
    assert_eq!(parse_uuid(&b"".to_vec()), None);
    assert_eq!(parse_uuid(&b"2a".to_vec()), None);
    assert_eq!(parse_uuid(&b"f-f".to_vec()), None);
    assert_eq!(parse_uuid(&b"0123456789abcdef0123456789abcdef".to_vec()), None);
    assert_eq!(parse_uuid(&b"00000000_0000_0000_0000_0000000000ff".to_vec()), None);
    assert_eq!(parse_uuid(&b"0000000-00000-0000-0000-0000000000ff".to_vec()), None);
    assert_eq!(parse_uuid(&b"00000000-0000-0000-0000-0000000000fg".to_vec()), None);
}

#[test]
fn the_first_occurrence_of_a_delegation_key_wins() {
    let value = b"stage=postq; stage=delivery; directive=one; directive=two; id=00000000-0000-0000-0000-000000000001; id=00000000-0000-0000-0000-000000000002"
        .to_vec();
    let info = parse_delegation_header(&value).unwrap();
    assert_eq!(info.stage, ExecutionStage::PostQ);
    assert_eq!(info.directive, b"one".to_vec());
    assert_eq!(info.uuid, 1);
}

#[test]
fn resumption_takes_the_identifier_from_the_header() {
    let mut ctx = ctx_at_postq(Some("ex.com"), TransactionType::Internal);
    let mut skipped: Option<Status> = Some(Status::DelegationResult);
    let info = DelegationInfo {
        stage: ExecutionStage::PostQ,
        directive: b"antivirus".to_vec(),
        uuid: 77,
    };
    apply_delegation_resumption(&mut ctx, &info, &mut skipped);
    assert_eq!(ctx.message_uuid, Some(77));
    assert!(skipped.is_none());
    // The envelope itself is untouched.
    assert_eq!(ctx.forward_paths.len(), 1);
    assert!(matches!(ctx.transaction_type, Some(TransactionType::Internal)));
}

#[test]
fn headers_with_malformed_identifiers_are_refused() {
    // A bare hex value is not a message identifier.
    assert!(parse_delegation_header(&b"stage=postq; directive=x; id=ff".to_vec()).is_none());
}

#[test]
fn hierarchies_the_compiler_would_refuse_are_detected() {
    let ok = Hierarchy {
        root_filter: script(
            ExecutionStage::PostQ,
            vec![rule("one", Status::Next), delegate("two")],
        ),
        fallback: empty_script(),
        domains: Vec::new(),
    };
    assert!(hierarchy_valid(&ok));

    // A duplicate directive name, even across stages, is refused.
    let duplicated = Hierarchy {
        root_filter: Script {
            stages: vec![
                StageRules {
                    stage: ExecutionStage::Connect,
                    directives: vec![rule("same", Status::Next)],
                },
                StageRules {
                    stage: ExecutionStage::Helo,
                    directives: vec![rule("same", Status::Next)],
                },
            ],
        },
        fallback: empty_script(),
        domains: Vec::new(),
    };
    assert!(!hierarchy_valid(&duplicated));

    // A delegation before the post-queue stages is refused.
    let early_delegate = Hierarchy {
        root_filter: script(ExecutionStage::RcptTo, vec![delegate("av")]),
        fallback: empty_script(),
        domains: Vec::new(),
    };
    assert!(!hierarchy_valid(&early_delegate));
}
