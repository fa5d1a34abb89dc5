//! ESMTP command recognition: the closed verb set, matched case-insensitively
//! against the start of a received line, with unknown prefixes preserved.

use vstd::prelude::*;
use crate::codec::{crlf_at, CR, LF};

verus! {

/// The verbs of the ESMTP command channel.
#[derive(Clone, Copy, PartialEq, Eq, Structural, Debug)]
pub enum Verb {
    Helo,
    Ehlo,
    MailFrom,
    RcptTo,
    Data,
    Quit,
    Rset,
    Noop,
    StartTls,
    Auth,
    Help,
    /// A line whose start matches no known verb; the full line is preserved.
    Unknown,
}

/// The ASCII bytes a verb is recognized by, arguments excluded. Verbs that
/// take an argument include the separating space or colon in their token.
pub open spec fn verb_token(v: Verb) -> Seq<u8> {
    match v {
        // "HELO "
        Verb::Helo => seq![72u8, 69, 76, 79, 32],
        // "EHLO "
        Verb::Ehlo => seq![69u8, 72, 76, 79, 32],
        // "MAIL FROM:"
        Verb::MailFrom => seq![77u8, 65, 73, 76, 32, 70, 82, 79, 77, 58],
        // "RCPT TO:"
        Verb::RcptTo => seq![82u8, 67, 80, 84, 32, 84, 79, 58],
        // "DATA"
        Verb::Data => seq![68u8, 65, 84, 65],
        // "QUIT"
        Verb::Quit => seq![81u8, 85, 73, 84],
        // "RSET"
        Verb::Rset => seq![82u8, 83, 69, 84],
        // "NOOP"
        Verb::Noop => seq![78u8, 79, 79, 80],
        // "STARTTLS"
        Verb::StartTls => seq![83u8, 84, 65, 82, 84, 84, 76, 83],
        // "AUTH "
        Verb::Auth => seq![65u8, 85, 84, 72, 32],
        // "HELP"
        Verb::Help => seq![72u8, 69, 76, 80],
        Verb::Unknown => seq![],
    }
}

/// ASCII upper-casing of one byte.
pub open spec fn upper_spec(b: u8) -> u8 {
    if 97 <= b && b <= 122 {
        (b - 32) as u8
    } else {
        b
    }
}

/// True when `line` starts with the token of `v`, compared without regard
/// to ASCII case.
pub open spec fn verb_matches(line: Seq<u8>, v: Verb) -> bool {
    &&& line.len() >= verb_token(v).len()
    &&& forall|i: int|
        0 <= i < verb_token(v).len() ==> upper_spec(line[i]) == verb_token(v)[i]
}

/// The verb recognized at the start of `line`: the first match in the fixed
/// trial order, `Unknown` when none matches.
pub open spec fn recognize_spec(line: Seq<u8>) -> Verb {
    if verb_matches(line, Verb::Helo) {
        Verb::Helo
    } else if verb_matches(line, Verb::Ehlo) {
        Verb::Ehlo
    } else if verb_matches(line, Verb::MailFrom) {
        Verb::MailFrom
    } else if verb_matches(line, Verb::RcptTo) {
        Verb::RcptTo
    } else if verb_matches(line, Verb::Data) {
        Verb::Data
    } else if verb_matches(line, Verb::Quit) {
        Verb::Quit
    } else if verb_matches(line, Verb::Rset) {
        Verb::Rset
    } else if verb_matches(line, Verb::Noop) {
        Verb::Noop
    } else if verb_matches(line, Verb::StartTls) {
        Verb::StartTls
    } else if verb_matches(line, Verb::Auth) {
        Verb::Auth
    } else if verb_matches(line, Verb::Help) {
        Verb::Help
    } else {
        Verb::Unknown
    }
}

/// A recognized command: the verb and its still-unparsed argument bytes.
/// For `Unknown` the arguments hold the whole line.
#[derive(Debug)]
pub struct Command {
    pub verb: Verb,
    pub args: Vec<u8>,
}

/// Errors of the framed command channel.
#[derive(Clone, PartialEq, Eq, Structural, Debug)]
pub enum ProtocolError {
    /// A line or message larger than the configured maximum.
    BufferTooLong { expected: usize, got: usize },
    /// A line that no parse can accept, such as one without CRLF.
    ParsingError,
}

/// The upper limit on a command line, terminator included.
pub const COMMAND_LINE_MAX: usize = 512;

fn upper(b: u8) -> (r: u8)
    ensures
        r == upper_spec(b),
{
    if 97 <= b && b <= 122 {
        b - 32
    } else {
        b
    }
}

/// The token bytes of one verb.
fn verb_token_exec(v: Verb) -> (r: Vec<u8>)
    ensures
        r@ == verb_token(v),
{
    let mut t: Vec<u8> = Vec::new();
    match v {
        Verb::Helo => {
            t.push(72);
            t.push(69);
            t.push(76);
            t.push(79);
            t.push(32);
        },
        Verb::Ehlo => {
            t.push(69);
            t.push(72);
            t.push(76);
            t.push(79);
            t.push(32);
        },
        Verb::MailFrom => {
            t.push(77);
            t.push(65);
            t.push(73);
            t.push(76);
            t.push(32);
            t.push(70);
            t.push(82);
            t.push(79);
            t.push(77);
            t.push(58);
        },
        Verb::RcptTo => {
            t.push(82);
            t.push(67);
            t.push(80);
            t.push(84);
            t.push(32);
            t.push(84);
            t.push(79);
            t.push(58);
        },
        Verb::Data => {
            t.push(68);
            t.push(65);
            t.push(84);
            t.push(65);
        },
        Verb::Quit => {
            t.push(81);
            t.push(85);
            t.push(73);
            t.push(84);
        },
        Verb::Rset => {
            t.push(82);
            t.push(83);
            t.push(69);
            t.push(84);
        },
        Verb::Noop => {
            t.push(78);
            t.push(79);
            t.push(79);
            t.push(80);
        },
        Verb::StartTls => {
            t.push(83);
            t.push(84);
            t.push(65);
            t.push(82);
            t.push(84);
            t.push(84);
            t.push(76);
            t.push(83);
        },
        Verb::Auth => {
            t.push(65);
            t.push(85);
            t.push(84);
            t.push(72);
            t.push(32);
        },
        Verb::Help => {
            t.push(72);
            t.push(69);
            t.push(76);
            t.push(80);
        },
        Verb::Unknown => {},
    }
    proof {
        assert(t@ =~= verb_token(v));
    }
    t
}

fn matches_verb(line: &Vec<u8>, v: Verb) -> (r: bool)
    ensures
        r == verb_matches(line@, v),
{
    let token = verb_token_exec(v);
    if line.len() < token.len() {
        return false;
    }
    let mut i: usize = 0;
    while i < token.len()
        invariant
            i <= token.len(),
            line@.len() >= token@.len(),
            token@ == verb_token(v),
            forall|j: int| 0 <= j < i ==> upper_spec(line@[j]) == verb_token(v)[j],
        decreases token.len() - i,
    {
        if upper(line[i]) != token[i] {
            return false;
        }
        i = i + 1;
    }
    true
}

/// The bytes of `line` from `from` to its end.
fn tail_from(line: &Vec<u8>, from: usize) -> (r: Vec<u8>)
    requires
        from <= line@.len(),
    ensures
        r@ == line@.skip(from as int),
{
    let mut out: Vec<u8> = Vec::new();
    let mut i: usize = from;
    while i < line.len()
        invariant
            from <= i <= line@.len(),
            out@ == line@.subrange(from as int, i as int),
        decreases line.len() - i,
    {
        out.push(line[i]);
        i = i + 1;
        proof {
            assert(out@ =~= line@.subrange(from as int, i as int));
        }
    }
    proof {
        assert(line@.subrange(from as int, line@.len() as int) =~= line@.skip(from as int));
    }
    out
}

/// Recognizes the verb at the start of a received line and splits off its
/// arguments. A line at or above the configured maximum is refused, as is a
/// line without CRLF; neither is looked at further.
pub fn parse_command_line(line: &Vec<u8>) -> (r: Result<Command, ProtocolError>)
    ensures
        match r {
            Ok(c) => {
                &&& line@.len() < COMMAND_LINE_MAX
                &&& exists|j: int| crlf_at(line@, j)
                &&& c.verb == recognize_spec(line@)
                &&& c.verb != Verb::Unknown ==> c.args@ == line@.skip(
                    verb_token(c.verb).len() as int,
                )
                &&& c.verb == Verb::Unknown ==> c.args@ == line@
            },
            Err(ProtocolError::BufferTooLong { expected, got }) => {
                &&& line@.len() >= COMMAND_LINE_MAX
                &&& expected == COMMAND_LINE_MAX
                &&& got == line@.len()
            },
            Err(ProtocolError::ParsingError) => {
                &&& line@.len() < COMMAND_LINE_MAX
                &&& forall|j: int| !crlf_at(line@, j)
            },
        },
{
    if line.len() >= COMMAND_LINE_MAX {
        return Err(ProtocolError::BufferTooLong { expected: COMMAND_LINE_MAX, got: line.len() });
    }
    match crate::codec::find_crlf(line) {
        None => {
            return Err(ProtocolError::ParsingError);
        },
        Some(p) => {
            proof {
                assert(crlf_at(line@, p as int));
            }
        },
    }
    let trial: [Verb; 11] = [
        Verb::Helo,
        Verb::Ehlo,
        Verb::MailFrom,
        Verb::RcptTo,
        Verb::Data,
        Verb::Quit,
        Verb::Rset,
        Verb::Noop,
        Verb::StartTls,
        Verb::Auth,
        Verb::Help,
    ];
    let mut k: usize = 0;
    while k < 11
        invariant
            k <= 11,
            line@.len() < COMMAND_LINE_MAX,
            exists|j: int| crlf_at(line@, j),
            trial@ =~= seq![
                Verb::Helo,
                Verb::Ehlo,
                Verb::MailFrom,
                Verb::RcptTo,
                Verb::Data,
                Verb::Quit,
                Verb::Rset,
                Verb::Noop,
                Verb::StartTls,
                Verb::Auth,
                Verb::Help,
            ],
            forall|j: int| 0 <= j < k ==> !verb_matches(line@, #[trigger] trial@[j]),
        decreases 11 - k,
    {
        let v = trial[k];
        if matches_verb(line, v) {
            let token = verb_token_exec(v);
            let args = tail_from(line, token.len());
            proof {
                assert(recognize_spec(line@) == v);
                assert(args@ == line@.skip(verb_token(v).len() as int));
                if v == Verb::Unknown {
                    assert(line@.skip(0) =~= line@);
                }
            }
            return Ok(Command { verb: v, args });
        }
        k = k + 1;
    }
    proof {
        assert(recognize_spec(line@) == Verb::Unknown);
    }
    Ok(Command { verb: Verb::Unknown, args: line.clone() })
}

} // verus!
