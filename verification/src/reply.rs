//! SMTP replies: the configurable code table with its standard defaults,
//! multi-line rendering, and the extension applied when the error budget
//! closes a connection.

use vstd::prelude::*;
use vstd::string::*;
use crate::codec::{CR, LF};

verus! {

/// The named entries of the reply code table.
#[derive(Clone, Copy, PartialEq, Eq, Structural, Debug)]
pub enum CodeID {
    Greetings,
    Helo,
    EhloPlain,
    EhloSecured,
    Okay,
    DataStart,
    Closing,
    Help,
    Denied,
    Unrecognized,
    Unimplemented,
    SyntaxArgs,
    BadSequence,
    TooManyRecipients,
    TooManyError,
    Timeout,
    TlsGoAhead,
    TlsNotAvailable,
    AuthSucceeded,
    AuthFailed,
    AuthRequired,
    MessageTooLong,
    DeliveryError,
}

/// One reply: a three-digit code and one or more text lines.
pub struct Reply {
    pub code: u16,
    pub lines: Vec<Vec<u8>>,
}

/// A reply code that counts against the error budget.
pub open spec fn is_error_code(code: u16) -> bool {
    code >= 400
}

/// A plausible reply: three digits and at least one line.
pub open spec fn reply_wf(r: Reply) -> bool {
    &&& 200 <= r.code <= 599
    &&& r.lines@.len() >= 1
}

/// The ASCII digits of a three-digit code.
pub open spec fn code_digits(code: u16) -> Seq<u8> {
    seq![
        (48 + code / 100) as u8,
        (48 + (code / 10) % 10) as u8,
        (48 + code % 10) as u8,
    ]
}

/// The ASCII hyphen, separating all but the last line of a reply.
pub const DASH: u8 = 45;
/// The ASCII space, separating the last line of a reply.
pub const SPACE: u8 = 32;

/// The wire form of the reply lines from index `i` on.
pub open spec fn render_from(code: u16, lines: Seq<Seq<u8>>, i: int) -> Seq<u8>
    decreases lines.len() - i,
{
    if i < 0 || i >= lines.len() {
        Seq::empty()
    } else {
        let sep: u8 = if i == lines.len() - 1 {
            SPACE
        } else {
            DASH
        };
        code_digits(code) + seq![sep] + lines[i] + seq![CR, LF] + render_from(code, lines, i + 1)
    }
}

/// The wire form of a whole reply.
pub open spec fn render_spec(r: Reply) -> Seq<u8> {
    render_from(r.code, r.lines@.map_values(|l: Vec<u8>| l@), 0)
}

/// Equality of replies, by content.
pub open spec fn same_reply(a: Reply, b: Reply) -> bool {
    a.code == b.code && a.lines@.map_values(|l: Vec<u8>| l@) == b.lines@.map_values(
        |l: Vec<u8>| l@,
    )
}

/// Appends `src` to `dst`.
pub fn append_bytes(dst: &mut Vec<u8>, src: &Vec<u8>)
    ensures
        final(dst)@ == old(dst)@ + src@,
{
    let mut i: usize = 0;
    while i < src.len()
        invariant
            i <= src@.len(),
            dst@ == old(dst)@ + src@.subrange(0, i as int),
        decreases src@.len() - i,
    {
        dst.push(src[i]);
        i = i + 1;
        proof {
            assert(dst@ =~= old(dst)@ + src@.subrange(0, i as int));
        }
    }
    proof {
        assert(old(dst)@ + src@.subrange(0, src@.len() as int) =~= old(dst)@ + src@);
    }
}

/// The bytes of a string literal.
pub fn text_bytes(s: &str) -> (r: Vec<u8>)
    ensures
        r@ == s.spec_bytes(),
{
    s.as_bytes_vec()
}

impl Reply {
    /// A one-line reply.
    pub fn new(code: u16, text: Vec<u8>) -> (r: Reply)
        ensures
            r.code == code,
            r.lines@.len() == 1,
            r.lines@[0]@ == text@,
    {
        let mut lines: Vec<Vec<u8>> = Vec::new();
        lines.push(text);
        Reply { code, lines }
    }

    /// A deep copy.
    pub fn duplicate(&self) -> (r: Reply)
        ensures
            r.code == self.code,
            r.lines@.len() == self.lines@.len(),
            forall|i: int| 0 <= i < self.lines@.len() ==> #[trigger] r.lines@[i]@ == self.lines@[i]@,
            render_spec(r) == render_spec(*self),
            same_reply(r, *self),
    {
        let mut lines: Vec<Vec<u8>> = Vec::new();
        let mut i: usize = 0;
        while i < self.lines.len()
            invariant
                i <= self.lines@.len(),
                lines@.len() == i,
                forall|j: int| 0 <= j < i ==> #[trigger] lines@[j]@ == self.lines@[j]@,
            decreases self.lines@.len() - i,
        {
            lines.push(self.lines[i].clone());
            i = i + 1;
        }
        let r = Reply { code: self.code, lines };
        proof {
            assert(r.lines@.map_values(|l: Vec<u8>| l@) =~= self.lines@.map_values(
                |l: Vec<u8>| l@,
            ));
        }
        r
    }

    /// The reply sent when the hard error budget is spent: the lines of
    /// `self` followed by the footer's lines, all under the footer's code.
    pub fn extended(&self, footer: &Reply) -> (r: Reply)
        ensures
            r.code == footer.code,
            r.lines@.len() == self.lines@.len() + footer.lines@.len(),
            forall|i: int|
                0 <= i < self.lines@.len() ==> #[trigger] r.lines@[i]@ == self.lines@[i]@,
            forall|i: int|
                0 <= i < footer.lines@.len() ==> #[trigger] r.lines@[self.lines@.len() + i]@
                    == footer.lines@[i]@,
    {
        let mut lines: Vec<Vec<u8>> = Vec::new();
        let mut i: usize = 0;
        while i < self.lines.len()
            invariant
                i <= self.lines@.len(),
                lines@.len() == i,
                forall|j: int| 0 <= j < i ==> #[trigger] lines@[j]@ == self.lines@[j]@,
            decreases self.lines@.len() - i,
        {
            lines.push(self.lines[i].clone());
            i = i + 1;
        }
        let mut k: usize = 0;
        while k < footer.lines.len()
            invariant
                k <= footer.lines@.len(),
                lines@.len() == self.lines@.len() + k,
                forall|j: int| 0 <= j < self.lines@.len() ==> #[trigger] lines@[j]@
                    == self.lines@[j]@,
                forall|j: int| 0 <= j < k ==> #[trigger] lines@[self.lines@.len() + j]@
                    == footer.lines@[j]@,
            decreases footer.lines@.len() - k,
        {
            lines.push(footer.lines[k].clone());
            k = k + 1;
        }
        Reply { code: footer.code, lines }
    }

    /// The wire form: each line prefixed by the code, a hyphen on all but
    /// the last line, a space on the last, CRLF after each.
    pub fn render(&self) -> (r: Vec<u8>)
        requires
            reply_wf(*self),
        ensures
            r@ == render_spec(*self),
    {
        let mut out: Vec<u8> = Vec::new();
        let mut i: usize = 0;
        let ghost lv = self.lines@.map_values(|l: Vec<u8>| l@);
        while i < self.lines.len()
            invariant
                i <= self.lines@.len(),
                200 <= self.code <= 599,
                lv == self.lines@.map_values(|l: Vec<u8>| l@),
                out@ + render_from(self.code, lv, i as int) == render_from(self.code, lv, 0),
            decreases self.lines@.len() - i,
        {
            let ghost out0 = out@;
            out.push(48 + (self.code / 100) as u8);
            out.push(48 + ((self.code / 10) % 10) as u8);
            out.push(48 + (self.code % 10) as u8);
            if i == self.lines.len() - 1 {
                out.push(SPACE);
            } else {
                out.push(DASH);
            }
            append_bytes(&mut out, &self.lines[i]);
            out.push(CR);
            out.push(LF);
            proof {
                let sep: u8 = if i == lv.len() - 1 {
                    SPACE
                } else {
                    DASH
                };
                assert(out@ =~= out0 + (code_digits(self.code) + seq![sep] + lv[i as int] + seq![
                    CR,
                    LF,
                ]));
                assert(render_from(self.code, lv, i as int) =~= (code_digits(self.code)
                    + seq![sep] + lv[i as int] + seq![CR, LF]) + render_from(
                    self.code,
                    lv,
                    i + 1,
                ));
                assert(out@ + render_from(self.code, lv, i + 1) =~= out0 + render_from(
                    self.code,
                    lv,
                    i as int,
                ));
            }
            i = i + 1;
        }
        proof {
            assert(render_from(self.code, lv, self.lines@.len() as int) =~= Seq::<u8>::empty());
            assert(out@ + Seq::<u8>::empty() =~= out@);
        }
        out
    }
}

/// A decimal digit byte.
pub open spec fn is_digit(b: u8) -> bool {
    48 <= b && b <= 57
}

/// A received reply line: three digits, a separator, text, CRLF.
pub open spec fn reply_line_wf(l: Seq<u8>) -> bool {
    &&& l.len() >= 6
    &&& is_digit(l[0]) && is_digit(l[1]) && is_digit(l[2])
    &&& (l[3] == SPACE || l[3] == DASH)
    &&& l[l.len() - 2] == CR
    &&& l[l.len() - 1] == LF
}

/// The code a received reply line carries.
pub open spec fn reply_line_code(l: Seq<u8>) -> int {
    (l[0] - 48) * 100 + (l[1] - 48) * 10 + (l[2] - 48)
}

/// The text of a received reply line: what stands between the separator
/// and the terminator.
pub open spec fn reply_line_text(l: Seq<u8>) -> Seq<u8> {
    l.subrange(4, l.len() - 2)
}

/// The first `n` lines form one whole reply: every line well-formed and
/// carrying the same three-digit success-or-error code, all but the last
/// continued with a hyphen, the last separated with a space.
pub open spec fn reply_prefix_at(lv: Seq<Seq<u8>>, n: int) -> bool {
    &&& 1 <= n <= lv.len()
    &&& (forall|i: int|
        0 <= i < n ==> reply_line_wf(#[trigger] lv[i]) && reply_line_code(lv[i])
            == reply_line_code(lv[0]))
    &&& 200 <= reply_line_code(lv[0]) <= 599
    &&& (forall|i: int| 0 <= i < n - 1 ==> (#[trigger] lv[i])[3] == DASH)
    &&& lv[n - 1][3] == SPACE
}

/// Reads one reply off received lines: lines with a hyphen after the code
/// continue the reply, a space ends it. Every line must carry the same
/// code. Exactly the inputs whose first lines form one whole reply are
/// read, and the reply and the number of lines it took are returned.
pub fn read_reply(lines: &Vec<Vec<u8>>) -> (r: Option<(Reply, usize)>)
    ensures
        ({
            let lv = lines@.map_values(|l: Vec<u8>| l@);
            (r is Some) <==> exists|n: int| reply_prefix_at(lv, n)
        }),
        r matches Some(p) ==> ({
            let lv = lines@.map_values(|l: Vec<u8>| l@);
            let n = p.1 as int;
            &&& reply_prefix_at(lv, n)
            &&& (forall|i: int| 0 <= i < n ==> reply_line_code(#[trigger] lv[i]) == p.0.code)
            &&& p.0.lines@.len() == n
            &&& (forall|i: int|
                0 <= i < n ==> (#[trigger] p.0.lines@[i])@ == reply_line_text(lv[i]))
            &&& reply_wf(p.0)
        }),
{
    let mut texts: Vec<Vec<u8>> = Vec::new();
    let mut code: u16 = 0;
    let mut i: usize = 0;
    let ghost lv = lines@.map_values(|l: Vec<u8>| l@);
    while i < lines.len()
        invariant
            i <= lv.len(),
            lv == lines@.map_values(|l: Vec<u8>| l@),
            texts@.len() == i,
            i > 0 ==> 200 <= code <= 599 && code == reply_line_code(lv[0]),
            forall|j: int|
                0 <= j < i ==> reply_line_wf(#[trigger] lv[j]) && reply_line_code(lv[j]) == code,
            forall|j: int| 0 <= j < i ==> (#[trigger] lv[j])[3] == DASH,
            forall|j: int| 0 <= j < i ==> (#[trigger] texts@[j])@ == reply_line_text(lv[j]),
        decreases lv.len() - i,
    {
        let line = &lines[i];
        let n = line.len();
        let well_formed = n >= 6 && {
            let d0 = line[0];
            let d1 = line[1];
            let d2 = line[2];
            let sep = line[3];
            48 <= d0 && d0 <= 57 && 48 <= d1 && d1 <= 57 && 48 <= d2 && d2 <= 57 && (sep
                == SPACE || sep == DASH) && line[n - 2] == CR && line[n - 1] == LF
        };
        if !well_formed {
            proof {
                assert(!reply_line_wf(lv[i as int]));
                assert forall|m: int| !reply_prefix_at(lv, m) by {
                    if reply_prefix_at(lv, m) {
                        if m <= i {
                            assert(lv[m - 1][3] == DASH);
                        } else {
                            assert(reply_line_wf(lv[i as int]));
                        }
                    }
                }
            }
            return None;
        }
        let d0 = line[0];
        let d1 = line[1];
        let d2 = line[2];
        let sep = line[3];
        let line_code: u16 = (d0 - 48) as u16 * 100 + (d1 - 48) as u16 * 10 + (d2 - 48) as u16;
        proof {
            assert(line_code as int == reply_line_code(lv[i as int]));
        }
        if line_code < 200 || line_code > 599 {
            proof {
                assert forall|m: int| !reply_prefix_at(lv, m) by {
                    if reply_prefix_at(lv, m) {
                        if m <= i {
                            assert(lv[m - 1][3] == DASH);
                        } else {
                            assert(reply_line_code(lv[i as int]) == reply_line_code(lv[0]));
                        }
                    }
                }
            }
            return None;
        }
        if i == 0 {
            code = line_code;
        } else if line_code != code {
            proof {
                assert forall|m: int| !reply_prefix_at(lv, m) by {
                    if reply_prefix_at(lv, m) {
                        if m <= i {
                            assert(lv[m - 1][3] == DASH);
                        } else {
                            assert(reply_line_code(lv[i as int]) == reply_line_code(lv[0]));
                        }
                    }
                }
            }
            return None;
        }
        let mut text: Vec<u8> = Vec::new();
        let mut k: usize = 4;
        while k < n - 2
            invariant
                4 <= k <= n - 2,
                n == line@.len(),
                n >= 6,
                text@ == line@.subrange(4, k as int),
            decreases n - 2 - k,
        {
            text.push(line[k]);
            k = k + 1;
            proof {
                assert(text@ =~= line@.subrange(4, k as int));
            }
        }
        texts.push(text);
        proof {
            assert(reply_line_wf(lv[i as int]));
            assert(texts@[i as int]@ == reply_line_text(lv[i as int]));
        }
        if sep == SPACE {
            let reply = Reply { code, lines: texts };
            proof {
                assert(reply_prefix_at(lv, i + 1));
            }
            return Some((reply, i + 1));
        }
        i = i + 1;
    }
    proof {
        assert forall|m: int| !reply_prefix_at(lv, m) by {
            if reply_prefix_at(lv, m) {
                assert(lv[m - 1][3] == DASH);
            }
        }
    }
    None
}

/// The code number each table entry defaults to.
pub open spec fn default_code_number(code: CodeID) -> u16 {
    match code {
        CodeID::Greetings => 220,
        CodeID::Helo => 250,
        CodeID::EhloPlain => 250,
        CodeID::EhloSecured => 250,
        CodeID::Okay => 250,
        CodeID::DataStart => 354,
        CodeID::Closing => 221,
        CodeID::Help => 214,
        CodeID::Denied => 554,
        CodeID::Unrecognized => 500,
        CodeID::Unimplemented => 502,
        CodeID::SyntaxArgs => 501,
        CodeID::BadSequence => 503,
        CodeID::TooManyRecipients => 452,
        CodeID::TooManyError => 451,
        CodeID::Timeout => 421,
        CodeID::TlsGoAhead => 220,
        CodeID::TlsNotAvailable => 454,
        CodeID::AuthSucceeded => 235,
        CodeID::AuthFailed => 535,
        CodeID::AuthRequired => 530,
        CodeID::MessageTooLong => 552,
        CodeID::DeliveryError => 554,
    }
}

/// The text each table entry defaults to. The greeting and the EHLO banner
/// carry the server's name.
pub open spec fn default_text(code: CodeID, name: Seq<u8>) -> Seq<u8> {
    match code {
        CodeID::Greetings => name + " Service ready".spec_bytes(),
        CodeID::Helo => "Ok".spec_bytes(),
        CodeID::EhloPlain => name,
        CodeID::EhloSecured => name,
        CodeID::Okay => "Ok".spec_bytes(),
        CodeID::DataStart => "Start mail input; end with <CRLF>.<CRLF>".spec_bytes(),
        CodeID::Closing => "Service closing transmission channel".spec_bytes(),
        CodeID::Help => "joining us https://viridit.com/support".spec_bytes(),
        CodeID::Denied => "permanent problems with the remote server".spec_bytes(),
        CodeID::Unrecognized => "Syntax error command unrecognized".spec_bytes(),
        CodeID::Unimplemented => "Command not implemented".spec_bytes(),
        CodeID::SyntaxArgs => "Syntax error in parameters or arguments".spec_bytes(),
        CodeID::BadSequence => "Bad sequence of commands".spec_bytes(),
        CodeID::TooManyRecipients => "Requested action not taken: too many recipients".spec_bytes(),
        CodeID::TooManyError => "Too many errors from the client".spec_bytes(),
        CodeID::Timeout => "Service not available, closing transmission channel".spec_bytes(),
        CodeID::TlsGoAhead => "TLS go ahead".spec_bytes(),
        CodeID::TlsNotAvailable => "TLS not available due to temporary reason".spec_bytes(),
        CodeID::AuthSucceeded => "2.7.0 Authentication succeeded".spec_bytes(),
        CodeID::AuthFailed => "5.7.8 Authentication credentials invalid".spec_bytes(),
        CodeID::AuthRequired => "5.7.0 Authentication required".spec_bytes(),
        CodeID::MessageTooLong => "message size exceeds fixed maximum message size".spec_bytes(),
        CodeID::DeliveryError => "permanent error while delivering the message".spec_bytes(),
    }
}

/// The standard reply for a table entry, for a server of the given name.
pub fn default_reply(code: CodeID, server_name: &Vec<u8>) -> (r: Reply)
    ensures
        r.code == default_code_number(code),
        r.lines@.len() == 1,
        r.lines@[0]@ == default_text(code, server_name@),
        reply_wf(r),
{
    match code {
        CodeID::Greetings => {
            let mut t = server_name.clone();
            append_bytes(&mut t, &text_bytes(" Service ready"));
            Reply::new(220, t)
        },
        CodeID::Helo => Reply::new(250, text_bytes("Ok")),
        CodeID::EhloPlain => Reply::new(250, server_name.clone()),
        CodeID::EhloSecured => Reply::new(250, server_name.clone()),
        CodeID::Okay => Reply::new(250, text_bytes("Ok")),
        CodeID::DataStart => Reply::new(354, text_bytes("Start mail input; end with <CRLF>.<CRLF>")),
        CodeID::Closing => Reply::new(221, text_bytes("Service closing transmission channel")),
        CodeID::Help => Reply::new(214, text_bytes("joining us https://viridit.com/support")),
        CodeID::Denied => Reply::new(554, text_bytes("permanent problems with the remote server")),
        CodeID::Unrecognized => Reply::new(500, text_bytes("Syntax error command unrecognized")),
        CodeID::Unimplemented => Reply::new(502, text_bytes("Command not implemented")),
        CodeID::SyntaxArgs => Reply::new(501, text_bytes("Syntax error in parameters or arguments")),
        CodeID::BadSequence => Reply::new(503, text_bytes("Bad sequence of commands")),
        CodeID::TooManyRecipients => Reply::new(
            452,
            text_bytes("Requested action not taken: too many recipients"),
        ),
        CodeID::TooManyError => Reply::new(451, text_bytes("Too many errors from the client")),
        CodeID::Timeout => Reply::new(
            421,
            text_bytes("Service not available, closing transmission channel"),
        ),
        CodeID::TlsGoAhead => Reply::new(220, text_bytes("TLS go ahead")),
        CodeID::TlsNotAvailable => Reply::new(
            454,
            text_bytes("TLS not available due to temporary reason"),
        ),
        CodeID::AuthSucceeded => Reply::new(235, text_bytes("2.7.0 Authentication succeeded")),
        CodeID::AuthFailed => Reply::new(535, text_bytes("5.7.8 Authentication credentials invalid")),
        CodeID::AuthRequired => Reply::new(530, text_bytes("5.7.0 Authentication required")),
        CodeID::MessageTooLong => Reply::new(
            552,
            text_bytes("message size exceeds fixed maximum message size"),
        ),
        CodeID::DeliveryError => Reply::new(
            554,
            text_bytes("permanent error while delivering the message"),
        ),
    }
}

} // verus!
