use vsmtp_core::rules::parse_uuid;
use vsmtp_core::transport::{format_uuid, maildir_paths, mbox_frame};

#[test]
fn mbox_quotes_separator_lookalikes() {
    let separator = b"From j@d Tue Nov 30 20:54:27 2021".to_vec();
    let body: Vec<Vec<u8>> = vec![
        b"Subject: hi".to_vec(),
        b"From me, greetings".to_vec(),
        b"From: a header, not a separator".to_vec(),
        b"not From anyone".to_vec(),
    ];
    let framed = mbox_frame(&separator, &body);
    assert_eq!(framed.len(), 5);
    assert_eq!(framed[0], separator);
    assert_eq!(framed[1], b"Subject: hi".to_vec());
    assert_eq!(framed[2], b">From me, greetings".to_vec());
    assert_eq!(framed[3], b"From: a header, not a separator".to_vec());
    assert_eq!(framed[4], b"not From anyone".to_vec());
}

#[test]
fn identifiers_format_in_canonical_groups() {
    assert_eq!(
        format_uuid(0x2a),
        b"00000000-0000-0000-0000-00000000002a".to_vec(),
    );
    assert_eq!(
        format_uuid(u128::MAX),
        b"ffffffff-ffff-ffff-ffff-ffffffffffff".to_vec(),
    );
    let sample = 0x0123_4567_89ab_cdef_0123_4567_89ab_cdefu128;
    assert_eq!(
        format_uuid(sample),
        b"01234567-89ab-cdef-0123-456789abcdef".to_vec(),
    );
    // The delegation header reads back exactly what was written.
    assert_eq!(parse_uuid(&format_uuid(sample)), Some(sample));
}

#[test]
fn maildir_moves_from_tmp_to_new() {
    let (tmp, fresh) = maildir_paths(&b"/home/user/Maildir".to_vec(), 0x2a);
    assert_eq!(
        tmp,
        b"/home/user/Maildir/tmp/00000000-0000-0000-0000-00000000002a".to_vec(),
    );
    assert_eq!(
        fresh,
        b"/home/user/Maildir/new/00000000-0000-0000-0000-00000000002a:2,".to_vec(),
    );
}
