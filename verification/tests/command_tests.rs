use vsmtp_core::command::{parse_command_line, ProtocolError, Verb};

fn parse(line: &str) -> Result<(Verb, Vec<u8>), ProtocolError> {
    parse_command_line(&line.as_bytes().to_vec()).map(|c| (c.verb, c.args))
}

#[test]
fn verbs_are_recognized() {
    assert_eq!(
        parse("MAIL FROM:<mrose@dbc.mtview.ca.us>\r\n").unwrap(),
        (Verb::MailFrom, b"<mrose@dbc.mtview.ca.us>\r\n".to_vec()),
    );
    assert_eq!(
        parse("RCPT TO:<ned@innosoft.com>\r\n").unwrap(),
        (Verb::RcptTo, b"<ned@innosoft.com>\r\n".to_vec()),
    );
    assert_eq!(parse("HELO foo\r\n").unwrap(), (Verb::Helo, b"foo\r\n".to_vec()));
    assert_eq!(parse("EHLO foo\r\n").unwrap(), (Verb::Ehlo, b"foo\r\n".to_vec()));
    assert_eq!(parse("DATA\r\n").unwrap(), (Verb::Data, b"\r\n".to_vec()));
    assert_eq!(parse("QUIT\r\n").unwrap(), (Verb::Quit, b"\r\n".to_vec()));
    assert_eq!(parse("RSET\r\n").unwrap(), (Verb::Rset, b"\r\n".to_vec()));
    assert_eq!(parse("NOOP\r\n").unwrap(), (Verb::Noop, b"\r\n".to_vec()));
    assert_eq!(parse("STARTTLS\r\n").unwrap(), (Verb::StartTls, b"\r\n".to_vec()));
    assert_eq!(parse("HELP\r\n").unwrap(), (Verb::Help, b"\r\n".to_vec()));
    assert_eq!(parse("AUTH PLAIN\r\n").unwrap(), (Verb::Auth, b"PLAIN\r\n".to_vec()));
}

#[test]
fn verbs_match_without_regard_to_case() {
    assert_eq!(
        parse("mail from:<a@b>\r\n").unwrap(),
        (Verb::MailFrom, b"<a@b>\r\n".to_vec()),
    );
    assert_eq!(parse("helo x\r\n").unwrap(), (Verb::Helo, b"x\r\n".to_vec()));
}

#[test]
fn unknown_lines_are_preserved_whole() {
    let (verb, args) = parse("not a valid smtp command\r\n").unwrap();
    assert_eq!(verb, Verb::Unknown);
    assert_eq!(args, b"not a valid smtp command\r\n".to_vec());
    // A verb that demands an argument separator is unknown without it.
    let (verb, args) = parse("EHLO\r\n").unwrap();
    assert_eq!(verb, Verb::Unknown);
    assert_eq!(args, b"EHLO\r\n".to_vec());
}

#[test]
fn oversized_lines_are_refused() {
    let mut line = vec![b'A'; 510];
    line.extend_from_slice(b"\r\n");
    assert_eq!(line.len(), 512);
    assert_eq!(
        parse_command_line(&line).unwrap_err(),
        ProtocolError::BufferTooLong { expected: 512, got: 512 },
    );
}

#[test]
fn lines_without_crlf_are_refused() {
    assert_eq!(
        parse_command_line(&b"NOOP".to_vec()).unwrap_err(),
        ProtocolError::ParsingError,
    );
}
