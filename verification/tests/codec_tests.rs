use vsmtp_core::codec::{
    find_crlf, read_message, split_window, stuff, unstuff, MessageRead,
};
use vsmtp_core::reply::read_reply;

fn lines(input: &[&str]) -> Vec<Vec<u8>> {
    input.iter().map(|s| s.as_bytes().to_vec()).collect()
}

#[test]
fn find_crlf_positions() {
    assert_eq!(find_crlf(&b"".to_vec()), None);
    assert_eq!(find_crlf(&b"abc".to_vec()), None);
    assert_eq!(find_crlf(&b"\r\n".to_vec()), Some(0));
    assert_eq!(find_crlf(&b"ab\r\ncd\r\n".to_vec()), Some(2));
    assert_eq!(find_crlf(&b"a\rb\nc".to_vec()), None);
}

#[test]
fn flush_window_several_lines() {
    let input = [
        "MAIL FROM:<mrose@dbc.mtview.ca.us>\r\n",
        "RCPT TO:<ned@innosoft.com>\r\n",
        "RCPT TO:<dan@innosoft.com>\r\n",
        "RCPT TO:<kvc@innosoft.com>\r\n",
    ]
    .concat();
    let (out, rest) = split_window(&input.as_bytes().to_vec());
    assert_eq!(out.len(), 4);
    assert_eq!(out[0], b"MAIL FROM:<mrose@dbc.mtview.ca.us>\r\n".to_vec());
    assert_eq!(out[1], b"RCPT TO:<ned@innosoft.com>\r\n".to_vec());
    assert_eq!(out[2], b"RCPT TO:<dan@innosoft.com>\r\n".to_vec());
    assert_eq!(out[3], b"RCPT TO:<kvc@innosoft.com>\r\n".to_vec());
    assert!(rest.is_empty());
}

#[test]
fn window_stream_single_lines() {
    let input = "MAIL FROM:<mrose@dbc.mtview.ca.us>\r\n";
    let (out, rest) = split_window(&input.as_bytes().to_vec());
    assert!(rest.is_empty());
    let cmds: Vec<_> = out
        .iter()
        .map(|l| vsmtp_core::command::parse_command_line(l).unwrap())
        .collect();
    assert_eq!(cmds.len(), 1);
    assert_eq!(cmds[0].verb, vsmtp_core::command::Verb::MailFrom);
    assert_eq!(cmds[0].args, b"<mrose@dbc.mtview.ca.us>\r\n".to_vec());
}

#[test]
fn window_stream_multiple_lines() {
    let input = [
        "MAIL FROM:<mrose@dbc.mtview.ca.us>\r\n",
        "RCPT TO:<ned@innosoft.com>\r\n",
        "RCPT TO:<dan@innosoft.com>\r\n",
        "RCPT TO:<kvc@innosoft.com>\r\n",
    ]
    .concat();
    let (out, rest) = split_window(&input.as_bytes().to_vec());
    assert!(rest.is_empty());
    let cmds: Vec<_> = out
        .iter()
        .map(|l| vsmtp_core::command::parse_command_line(l).unwrap())
        .collect();
    assert_eq!(cmds.len(), 4);
    assert_eq!(cmds[0].verb, vsmtp_core::command::Verb::MailFrom);
    assert_eq!(cmds[0].args, b"<mrose@dbc.mtview.ca.us>\r\n".to_vec());
    assert_eq!(cmds[1].verb, vsmtp_core::command::Verb::RcptTo);
    assert_eq!(cmds[1].args, b"<ned@innosoft.com>\r\n".to_vec());
    assert_eq!(cmds[2].args, b"<dan@innosoft.com>\r\n".to_vec());
    assert_eq!(cmds[3].args, b"<kvc@innosoft.com>\r\n".to_vec());
}

#[test]
fn window_with_unterminated_tail() {
    let input = ["RCPT TO:<ned@innosoft.com>\r\n", "RCPT TO:<kvc@innosoft.com>"].concat();
    let (out, rest) = split_window(&input.as_bytes().to_vec());
    assert_eq!(out.len(), 1);
    assert_eq!(out[0], b"RCPT TO:<ned@innosoft.com>\r\n".to_vec());
    assert_eq!(rest, b"RCPT TO:<kvc@innosoft.com>".to_vec());
}

#[test]
fn window_stream_no_lines() {
    let (out, rest) = split_window(&Vec::new());
    assert!(out.is_empty());
    assert!(rest.is_empty());
}

#[test]
fn stuff_round_trip_concrete() {
    let body = lines(&[".\r\n", "..x\r\n", "plain\r\n", ".dotted\r\n"]);
    let stuffed = stuff(&body);
    assert_eq!(stuffed[0], b"..\r\n".to_vec());
    assert_eq!(stuffed[1], b"...x\r\n".to_vec());
    assert_eq!(stuffed[2], b"plain\r\n".to_vec());
    assert_eq!(stuffed[3], b"..dotted\r\n".to_vec());
    let back = unstuff(&stuffed);
    assert_eq!(back, body);
}

#[test]
fn message_terminates_at_lone_dot() {
    let input = lines(&["Subject: x\r\n", "\r\n", "hello\r\n", ".\r\n", "after\r\n"]);
    match read_message(&input, 1024) {
        MessageRead::Complete { body, consumed } => {
            assert_eq!(consumed, 4);
            assert_eq!(body, lines(&["Subject: x\r\n", "\r\n", "hello\r\n"]));
        }
        _ => panic!("expected a complete message"),
    }
}

#[test]
fn message_unstuffs_leading_dots() {
    let input = lines(&["..x\r\n", ".\r\n"]);
    match read_message(&input, 1024) {
        MessageRead::Complete { body, .. } => {
            assert_eq!(body, lines(&[".x\r\n"]));
        }
        _ => panic!("expected a complete message"),
    }
}

#[test]
fn message_size_limit_is_enforced() {
    let input = lines(&["aaaaaaaaaa\r\n", "bbbbbbbbbb\r\n", ".\r\n"]);
    match read_message(&input, 20) {
        MessageRead::TooLong { got } => {
            assert!(got >= 20);
        }
        _ => panic!("expected the size limit to fire"),
    }
}

#[test]
fn message_without_terminator_is_incomplete() {
    let input = lines(&["one\r\n", "two\r\n"]);
    match read_message(&input, 1024) {
        MessageRead::Incomplete { body } => {
            assert_eq!(body, lines(&["one\r\n", "two\r\n"]));
        }
        _ => panic!("expected an incomplete message"),
    }
}

#[test]
fn replies_read_back_from_their_lines() {
    let lines = vec![
        b"250-testserver.com\r\n".to_vec(),
        b"250 PIPELINING\r\n".to_vec(),
        b"221 Bye\r\n".to_vec(),
    ];
    let (reply, consumed) = read_reply(&lines).unwrap();
    assert_eq!(consumed, 2);
    assert_eq!(reply.code, 250);
    assert_eq!(reply.lines, vec![b"testserver.com".to_vec(), b"PIPELINING".to_vec()]);
    assert_eq!(reply.render(), b"250-testserver.com\r\n250 PIPELINING\r\n".to_vec());

    // A reply whose lines disagree on the code is refused.
    let mixed = vec![b"250-a\r\n".to_vec(), b"251 b\r\n".to_vec()];
    assert!(read_reply(&mixed).is_none());
    // So is one that never ends.
    let unfinished = vec![b"250-a\r\n".to_vec()];
    assert!(read_reply(&unfinished).is_none());
    // And one too short to carry a code.
    let short = vec![b"25\r\n".to_vec()];
    assert!(read_reply(&short).is_none());
}
