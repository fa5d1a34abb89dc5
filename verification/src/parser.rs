//! A small mail parser: splits the received lines of a message into its
//! header block and its body, leaving both raw.

use vstd::prelude::*;
use crate::codec::LF;

verus! {

/// The ASCII colon that separates a header name from its value.
pub const COLON: u8 = 58;
/// The ASCII horizontal tab.
pub const TAB: u8 = 9;
/// The ASCII space.
pub const BLANK: u8 = 32;
/// The ASCII carriage return.
pub const RET: u8 = 13;
/// The ASCII form feed.
pub const FEED: u8 = 12;

/// ASCII whitespace, as the header-folding check understands it.
pub open spec fn is_ws(b: u8) -> bool {
    b == BLANK || b == TAB || b == LF || b == RET || b == FEED
}

/// A bare line-feed line: the blank separator between headers and body.
pub open spec fn is_blank_line(l: Seq<u8>) -> bool {
    l == seq![LF]
}

/// A line that can only start the body: it neither continues a folded
/// header (no leading whitespace) nor starts one (no colon).
pub open spec fn starts_body(l: Seq<u8>) -> bool {
    &&& !(l.len() > 0 && is_ws(l[0]))
    &&& forall|j: int| 0 <= j < l.len() ==> l[j] != COLON
}

/// Where the header block ends: the first blank line or body-only line
/// from `i` on, or the end of the message.
pub open spec fn split_point(lv: Seq<Seq<u8>>, i: int) -> int
    decreases lv.len() - i,
{
    if i < 0 || i >= lv.len() {
        lv.len() as int
    } else if is_blank_line(lv[i]) || starts_body(lv[i]) {
        i
    } else {
        split_point(lv, i + 1)
    }
}

proof fn lemma_split_skip(lv: Seq<Seq<u8>>, i: int)
    requires
        0 <= i <= lv.len(),
        forall|j: int| 0 <= j < i ==> !is_blank_line(#[trigger] lv[j]) && !starts_body(lv[j]),
    ensures
        split_point(lv, 0) == split_point(lv, i),
    decreases i,
{
    if i > 0 {
        lemma_split_skip(lv, i - 1);
    }
}

/// A message in its raw form: header lines and body lines, untouched.
pub struct RawBody {
    pub headers: Vec<Vec<u8>>,
    pub body: Vec<Vec<u8>>,
}

/// The plain parser: it cuts the message at the blank line, or at the
/// first line that can only be body.
pub struct BasicParser;

impl BasicParser {
    /// Splits raw message lines into headers and body. Header lines run
    /// until a bare line-feed line, which is dropped, or until a line that
    /// neither folds nor starts a header, which already belongs to the
    /// body.
    pub fn parse_sync(&self, raw: Vec<Vec<u8>>) -> (r: RawBody)
        ensures
            ({
                let lv = raw@.map_values(|l: Vec<u8>| l@);
                let k = split_point(lv, 0);
                &&& r.headers@.map_values(|l: Vec<u8>| l@) == lv.subrange(0, k)
                &&& (k == lv.len() ==> r.body@.len() == 0)
                &&& (k < lv.len() && is_blank_line(lv[k]) ==> r.body@.map_values(
                    |l: Vec<u8>| l@,
                ) == lv.subrange(k + 1, lv.len() as int))
                &&& (k < lv.len() && !is_blank_line(lv[k]) ==> r.body@.map_values(
                    |l: Vec<u8>| l@,
                ) == lv.subrange(k, lv.len() as int))
            }),
    {
        let ghost lv = raw@.map_values(|l: Vec<u8>| l@);
        let mut headers: Vec<Vec<u8>> = Vec::new();
        let mut body: Vec<Vec<u8>> = Vec::new();
        let mut i: usize = 0;
        let mut body_from: usize = raw.len();
        let mut at_blank = false;
        let mut stop = false;
        while i < raw.len() && !stop
            invariant
                i <= raw@.len(),
                lv == raw@.map_values(|l: Vec<u8>| l@),
                body_from <= raw@.len(),
                forall|j: int|
                    0 <= j < i ==> !is_blank_line(#[trigger] lv[j]) && !starts_body(lv[j]),
                headers@.map_values(|l: Vec<u8>| l@) =~= lv.subrange(0, i as int),
                !stop ==> body_from == raw@.len() && !at_blank,
                stop && at_blank ==> i < raw@.len() && is_blank_line(lv[i as int]) && body_from
                    == i + 1,
                stop && !at_blank ==> i < raw@.len() && starts_body(lv[i as int]) && body_from
                    == i,
            decreases raw@.len() - i + (if stop {
                0int
            } else {
                1int
            }),
        {
            let line = &raw[i];
            if line.len() == 1 && line[0] == LF {
                proof {
                    assert(lv[i as int] =~= seq![LF]);
                }
                body_from = i + 1;
                at_blank = true;
                stop = true;
            } else {
                let mut has_colon = false;
                let mut c: usize = 0;
                while c < line.len()
                    invariant
                        c <= line@.len(),
                        has_colon == exists|j: int| 0 <= j < c && #[trigger] line@[j] == COLON,
                    decreases line@.len() - c,
                {
                    if line[c] == COLON {
                        has_colon = true;
                    }
                    c = c + 1;
                }
                let folds = line.len() > 0 && {
                    let b = line[0];
                    b == BLANK || b == TAB || b == LF || b == RET || b == FEED
                };
                if !folds && !has_colon {
                    proof {
                        assert(starts_body(lv[i as int]));
                    }
                    body_from = i;
                    stop = true;
                } else {
                    proof {
                        assert(!is_blank_line(lv[i as int])) by {
                            if is_blank_line(lv[i as int]) {
                                assert(line@.len() == 1 && line@[0] == LF);
                            }
                        }
                        assert(!starts_body(lv[i as int])) by {
                            if starts_body(lv[i as int]) {
                                if folds {
                                    assert(is_ws(line@[0]));
                                } else {
                                    let j = choose|j: int|
                                        0 <= j < line@.len() && line@[j] == COLON;
                                    assert(lv[i as int][j] == COLON);
                                }
                            }
                        }
                    }
                    let ghost prev = headers@.map_values(|l: Vec<u8>| l@);
                    headers.push(line.clone());
                    proof {
                        assert(headers@.map_values(|l: Vec<u8>| l@) =~= prev.push(lv[i as int]));
                        assert(lv.subrange(0, i + 1) =~= lv.subrange(0, i as int).push(
                            lv[i as int],
                        ));
                    }
                    i = i + 1;
                }
            }
        }
        proof {
            lemma_split_skip(lv, i as int);
            if stop {
                assert(split_point(lv, i as int) == i as int);
            } else {
                assert(i == lv.len());
            }
        }
        let mut m: usize = body_from;
        while m < raw.len()
            invariant
                body_from <= m <= raw@.len(),
                lv == raw@.map_values(|l: Vec<u8>| l@),
                body@.map_values(|l: Vec<u8>| l@) =~= lv.subrange(body_from as int, m as int),
            decreases raw@.len() - m,
        {
            let ghost prev = body@.map_values(|l: Vec<u8>| l@);
            body.push(raw[m].clone());
            proof {
                assert(body@.map_values(|l: Vec<u8>| l@) =~= prev.push(lv[m as int]));
                assert(lv.subrange(body_from as int, m + 1) =~= lv.subrange(
                    body_from as int,
                    m as int,
                ).push(lv[m as int]));
            }
            m = m + 1;
        }
        proof {
            assert(lv.subrange(body_from as int, lv.len() as int) =~= lv.subrange(
                body_from as int,
                lv.len() as int,
            ));
        }
        RawBody { headers, body }
    }
}

} // verus!
