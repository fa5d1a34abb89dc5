//! Byte-level framing of the SMTP channel: CRLF line splitting of a drained
//! TCP window and the dot-stuffing transform applied to message bodies.

use vstd::prelude::*;

verus! {

/// Carriage return, the first byte of the CRLF line terminator.
pub const CR: u8 = 13;
/// Line feed, the second byte of the CRLF line terminator.
pub const LF: u8 = 10;
/// The ASCII full stop, used by the dot-stuffing transform.
pub const DOT: u8 = 46;

/// True when the two bytes at `i` are CR LF.
pub open spec fn crlf_at(s: Seq<u8>, i: int) -> bool {
    0 <= i && i + 1 < s.len() && s[i] == CR && s[i + 1] == LF
}

/// A well-formed frame: ends with CRLF and holds no earlier CRLF.
pub open spec fn is_frame(s: Seq<u8>) -> bool {
    &&& s.len() >= 2
    &&& s[s.len() - 2] == CR
    &&& s[s.len() - 1] == LF
    &&& forall|j: int| 0 <= j < s.len() - 2 ==> !crlf_at(s, j)
}

/// The bytes of a list of lines, in order.
pub open spec fn flatten_bytes(lines: Seq<Seq<u8>>) -> Seq<u8>
    decreases lines.len(),
{
    if lines.len() == 0 {
        Seq::empty()
    } else {
        lines[0] + flatten_bytes(lines.drop_first())
    }
}

pub proof fn lemma_flatten_bytes_push(lines: Seq<Seq<u8>>, line: Seq<u8>)
    ensures
        flatten_bytes(lines.push(line)) == flatten_bytes(lines) + line,
    decreases lines.len(),
{
    if lines.len() == 0 {
        assert(lines.push(line)[0] == line);
        assert(lines.push(line).drop_first() =~= Seq::<Seq<u8>>::empty());
        assert(flatten_bytes(Seq::<Seq<u8>>::empty()) =~= Seq::<u8>::empty());
        assert(flatten_bytes(lines.push(line)) =~= line + Seq::<u8>::empty());
        assert(line + Seq::<u8>::empty() =~= line);
        assert(flatten_bytes(lines) + line =~= line);
    } else {
        assert(lines.push(line)[0] == lines[0]);
        assert(lines.push(line).drop_first() =~= lines.drop_first().push(line));
        lemma_flatten_bytes_push(lines.drop_first(), line);
        assert((lines[0] + flatten_bytes(lines.drop_first())) + line =~= lines[0] + (flatten_bytes(
            lines.drop_first(),
        ) + line));
        assert(flatten_bytes(lines.push(line)) =~= flatten_bytes(lines) + line);
    }
}

/// Index of the first CR LF pair in `bytes`, if any.
pub fn find_crlf(bytes: &Vec<u8>) -> (r: Option<usize>)
    ensures
        match r {
            Some(i) => crlf_at(bytes@, i as int) && forall|j: int| 0 <= j < i ==> !crlf_at(bytes@, j),
            None => forall|j: int| !crlf_at(bytes@, j),
        },
{
    if bytes.len() < 2 {
        return None;
    }
    let mut i: usize = 0;
    while i + 1 < bytes.len()
        invariant
            i + 1 <= bytes.len(),
            forall|j: int| 0 <= j < i ==> !crlf_at(bytes@, j),
        decreases bytes.len() - i,
    {
        if bytes[i] == CR && bytes[i + 1] == LF {
            return Some(i);
        }
        i = i + 1;
    }
    None
}

/// Takes the first CRLF-terminated line off the front of `rest`.
fn split_one(rest: Vec<u8>, p: usize) -> (r: (Vec<u8>, Vec<u8>))
    requires
        crlf_at(rest@, p as int),
        forall|j: int| 0 <= j < p ==> !crlf_at(rest@, j),
    ensures
        r.0@ + r.1@ == rest@,
        is_frame(r.0@),
        r.1@.len() < rest@.len(),
{
    let ghost old_rest = rest@;
    let mut line = rest;
    let n: usize = line.len();
    proof {
        assert(p + 2 <= n);
    }
    let tail = line.split_off(p + 2);
    proof {
        assert(line@ =~= old_rest.subrange(0, p + 2));
        assert(tail@ =~= old_rest.subrange(p + 2, old_rest.len() as int));
        assert(line@ + tail@ =~= old_rest);
        assert forall|j: int| 0 <= j < p implies !crlf_at(line@, j) by {
            if crlf_at(line@, j) {
                assert(old_rest[j] == CR && old_rest[j + 1] == LF);
                assert(crlf_at(old_rest, j));
            }
        }
        assert(is_frame(line@));
    }
    (line, tail)
}

/// Splits a drained window into its complete CRLF-terminated lines and the
/// unterminated remainder. Bytes left at the end of the connection in the
/// remainder are a defined error for the caller; they are never a line.
pub fn split_window(input: &Vec<u8>) -> (r: (Vec<Vec<u8>>, Vec<u8>))
    ensures
        flatten_bytes(r.0@.map_values(|l: Vec<u8>| l@)) + r.1@ == input@,
        forall|i: int| 0 <= i < r.0@.len() ==> is_frame(#[trigger] r.0@[i]@),
        forall|j: int| !crlf_at(r.1@, j),
{
    let mut lines: Vec<Vec<u8>> = Vec::new();
    let mut rest: Vec<u8> = input.clone();
    loop
        invariant
            flatten_bytes(lines@.map_values(|l: Vec<u8>| l@)) + rest@ == input@,
            forall|i: int| 0 <= i < lines@.len() ==> is_frame(#[trigger] lines@[i]@),
        decreases rest@.len(),
    {
        match find_crlf(&rest) {
            Some(p) => {
                let ghost old_lines = lines@;
                let ghost old_rest = rest@;
                let (line, tail) = split_one(rest, p);
                let ghost lv = line@;
                lines.push(line);
                rest = tail;
                proof {
                    lemma_flatten_bytes_push(old_lines.map_values(|l: Vec<u8>| l@), lv);
                    assert(lines@.map_values(|l: Vec<u8>| l@) =~= old_lines.map_values(
                        |l: Vec<u8>| l@,
                    ).push(lv));
                    assert((flatten_bytes(old_lines.map_values(|l: Vec<u8>| l@)) + lv) + rest@
                        =~= flatten_bytes(old_lines.map_values(|l: Vec<u8>| l@)) + (lv + rest@));
                    assert(flatten_bytes(lines@.map_values(|l: Vec<u8>| l@)) + rest@ =~= input@);
                }
            },
            None => {
                return (lines, rest);
            },
        }
    }
}

/// The dot-stuffing of one line: a leading dot is doubled.
pub open spec fn stuff_line_spec(l: Seq<u8>) -> Seq<u8> {
    if l.len() > 0 && l[0] == DOT {
        seq![DOT] + l
    } else {
        l
    }
}

/// The dot-unstuffing of one line: one leading dot is removed.
pub open spec fn unstuff_line_spec(l: Seq<u8>) -> Seq<u8> {
    if l.len() > 0 && l[0] == DOT {
        l.drop_first()
    } else {
        l
    }
}

/// Unstuffing undoes stuffing on any single line.
pub proof fn lemma_line_round_trip(l: Seq<u8>)
    ensures
        unstuff_line_spec(stuff_line_spec(l)) == l,
{
    if l.len() > 0 && l[0] == DOT {
        assert((seq![DOT] + l).drop_first() =~= l);
    }
}

/// The dot-stuffing of a message body, line by line.
pub open spec fn stuff_spec(body: Seq<Seq<u8>>) -> Seq<Seq<u8>> {
    body.map_values(|l: Seq<u8>| stuff_line_spec(l))
}

/// The dot-unstuffing of a message body, line by line.
pub open spec fn unstuff_spec(body: Seq<Seq<u8>>) -> Seq<Seq<u8>> {
    body.map_values(|l: Seq<u8>| unstuff_line_spec(l))
}

/// Dot-stuff round trip: unstuffing a stuffed body returns the body, for
/// every body.
pub proof fn lemma_stuff_round_trip(body: Seq<Seq<u8>>)
    ensures
        unstuff_spec(stuff_spec(body)) == body,
{
    assert forall|i: int| 0 <= i < body.len() implies unstuff_line_spec(
        stuff_line_spec(body[i]),
    ) == body[i] by {
        lemma_line_round_trip(body[i]);
    }
    assert(unstuff_spec(stuff_spec(body)) =~= body);
}

/// The lone dot line that ends a message stream.
pub open spec fn is_terminator(l: Seq<u8>) -> bool {
    l == seq![DOT, CR, LF]
}

/// The total size of the unstuffed prefix of length `m`.
pub open spec fn unstuffed_prefix_size(lines: Seq<Seq<u8>>, m: int) -> int
    decreases m,
{
    if m <= 0 {
        0
    } else {
        unstuffed_prefix_size(lines, m - 1) + unstuff_line_spec(lines[m - 1]).len()
    }
}

/// The first lone dot line from `i` on.
pub open spec fn first_terminator_from(lv: Seq<Seq<u8>>, i: int) -> Option<int>
    decreases lv.len() - i,
{
    if i < 0 || i >= lv.len() {
        None
    } else if is_terminator(lv[i]) {
        Some(i)
    } else {
        first_terminator_from(lv, i + 1)
    }
}

/// The first lone dot line of the stream.
pub open spec fn first_terminator(lv: Seq<Seq<u8>>) -> Option<int> {
    first_terminator_from(lv, 0)
}

proof fn lemma_terminator_skip(lv: Seq<Seq<u8>>, i: int)
    requires
        0 <= i <= lv.len(),
        forall|j: int| 0 <= j < i ==> !is_terminator(#[trigger] lv[j]),
    ensures
        first_terminator_from(lv, 0) == first_terminator_from(lv, i),
    decreases i,
{
    if i > 0 {
        lemma_terminator_skip(lv, i - 1);
    }
}

/// The unstuffed size of a prefix never shrinks as the prefix grows.
pub proof fn lemma_prefix_size_mono(lv: Seq<Seq<u8>>, m1: int, m2: int)
    requires
        0 <= m1 <= m2,
    ensures
        unstuffed_prefix_size(lv, m1) <= unstuffed_prefix_size(lv, m2),
    decreases m2 - m1,
{
    if m1 < m2 {
        lemma_prefix_size_mono(lv, m1, m2 - 1);
    }
}

/// How reading a message stream ended.
pub enum MessageRead {
    /// A lone dot line ended the stream; `consumed` lines were read,
    /// terminator included, and `body` holds them unstuffed.
    Complete { body: Vec<Vec<u8>>, consumed: usize },
    /// The cumulative unstuffed size reached the limit.
    TooLong { got: usize },
    /// The lines ran out before any terminator.
    Incomplete { body: Vec<Vec<u8>> },
}

/// Reads a message from its received lines: a lone `.` line ends it, one
/// leading dot is removed from every line, and the cumulative byte count is
/// held to the limit.
pub fn read_message(lines: &Vec<Vec<u8>>, size_limit: usize) -> (r: MessageRead)
    requires
        size_limit > 0,
    ensures
        ({
            let lv = lines@.map_values(|l: Vec<u8>| l@);
            match r {
                MessageRead::Complete { body, consumed } => {
                    &&& 1 <= consumed <= lv.len()
                    &&& is_terminator(lv[consumed - 1])
                    &&& (forall|j: int| 0 <= j < consumed - 1 ==> !is_terminator(#[trigger] lv[j]))
                    &&& body@.map_values(|l: Vec<u8>| l@) == unstuff_spec(
                        lv.subrange(0, consumed - 1),
                    )
                    &&& unstuffed_prefix_size(lv, consumed - 1) < size_limit
                },
                MessageRead::TooLong { got } => {
                    &&& got >= size_limit
                    &&& exists|m: int|
                        {
                            &&& 0 < m <= lv.len()
                            &&& (forall|j: int| 0 <= j < m ==> !is_terminator(#[trigger] lv[j]))
                            &&& unstuffed_prefix_size(lv, m) >= got
                        }
                },
                MessageRead::Incomplete { body } => {
                    &&& (forall|j: int| 0 <= j < lv.len() ==> !is_terminator(#[trigger] lv[j]))
                    &&& body@.map_values(|l: Vec<u8>| l@) == unstuff_spec(lv)
                    &&& unstuffed_prefix_size(lv, lv.len() as int) < size_limit
                },
            }
        }),
        ({
            let lv = lines@.map_values(|l: Vec<u8>| l@);
            &&& ((r is Complete) <==> (first_terminator(lv) matches Some(m)
                && unstuffed_prefix_size(lv, m) < size_limit))
            &&& (r matches MessageRead::Complete { consumed, .. } ==> first_terminator(lv)
                == Some(consumed - 1))
            &&& ((r is TooLong) <==> !(r is Complete) && (match first_terminator(lv) {
                Some(m) => true,
                None => unstuffed_prefix_size(lv, lv.len() as int) >= size_limit,
            }))
        }),
{
    let ghost lv = lines@.map_values(|l: Vec<u8>| l@);
    let mut body: Vec<Vec<u8>> = Vec::new();
    let mut size: usize = 0;
    let mut i: usize = 0;
    while i < lines.len()
        invariant
            i <= lines@.len(),
            lv == lines@.map_values(|l: Vec<u8>| l@),
            forall|j: int| 0 <= j < i ==> !is_terminator(#[trigger] lv[j]),
            body@.map_values(|l: Vec<u8>| l@) =~= unstuff_spec(lv.subrange(0, i as int)),
            size == unstuffed_prefix_size(lv, i as int),
            size < size_limit,
        decreases lines@.len() - i,
    {
        let line = &lines[i];
        if line.len() == 3 && line[0] == DOT && line[1] == CR && line[2] == LF {
            proof {
                assert(lv[i as int] =~= seq![DOT, CR, LF]);
                lemma_terminator_skip(lv, i as int);
            }
            return MessageRead::Complete { body, consumed: i + 1 };
        }
        proof {
            assert(!is_terminator(lv[i as int])) by {
                if is_terminator(lv[i as int]) {
                    assert(lv[i as int].len() == 3);
                    assert(line@ == lv[i as int]);
                    assert(line@[0] == DOT && line@[1] == CR && line@[2] == LF);
                }
            }
            assert(forall|j: int| 0 <= j < i + 1 ==> !is_terminator(#[trigger] lv[j]));
        }
        let unstuffed = unstuff_line(line);
        let new_size = match size.checked_add(unstuffed.len()) {
            Some(s) => s,
            None => {
                proof {
                    assert(unstuffed_prefix_size(lv, i + 1) == size + unstuff_line_spec(
                        lv[i as int],
                    ).len());
                    assert(unstuffed_prefix_size(lv, i + 1) >= usize::MAX);
                    lemma_too_long_class(lv, i + 1, size_limit as int);
                }
                return MessageRead::TooLong { got: usize::MAX };
            },
        };
        if new_size >= size_limit {
            proof {
                assert(unstuffed_prefix_size(lv, i + 1) == size + unstuff_line_spec(
                    lv[i as int],
                ).len());
                assert(unstuffed_prefix_size(lv, i + 1) >= new_size);
                lemma_too_long_class(lv, i + 1, size_limit as int);
            }
            return MessageRead::TooLong { got: new_size };
        }
        size = new_size;
        let ghost prev = body@.map_values(|l: Vec<u8>| l@);
        body.push(unstuffed);
        proof {
            assert(body@.map_values(|l: Vec<u8>| l@) =~= prev.push(unstuff_line_spec(lv[i as int])));
            assert(lv.subrange(0, i + 1) =~= lv.subrange(0, i as int).push(lv[i as int]));
            assert(unstuff_spec(lv.subrange(0, i + 1)) =~~= unstuff_spec(
                lv.subrange(0, i as int),
            ).push(unstuff_line_spec(lv[i as int])));
            assert(unstuffed_prefix_size(lv, i + 1) == size);
        }
        i = i + 1;
    }
    proof {
        assert(lv.subrange(0, lv.len() as int) =~= lv);
        lemma_terminator_skip(lv, lv.len() as int);
    }
    MessageRead::Incomplete { body }
}

/// A terminator-free prefix at the size limit rules a completed read out:
/// if the stream terminates at all, it terminates no earlier, and the size
/// at the terminator can only be larger.
proof fn lemma_too_long_class(lv: Seq<Seq<u8>>, m: int, size_limit: int)
    requires
        0 < m <= lv.len(),
        forall|j: int| 0 <= j < m ==> !is_terminator(#[trigger] lv[j]),
        unstuffed_prefix_size(lv, m) >= size_limit,
    ensures
        !(first_terminator(lv) matches Some(t) && unstuffed_prefix_size(lv, t) < size_limit),
        match first_terminator(lv) {
            Some(t) => true,
            None => unstuffed_prefix_size(lv, lv.len() as int) >= size_limit,
        },
{
    match first_terminator(lv) {
        Some(t) => {
            lemma_terminator_bounds(lv, 0);
            assert(m <= t);
            lemma_prefix_size_mono(lv, m, t);
        },
        None => {
            lemma_prefix_size_mono(lv, m, lv.len() as int);
        },
    }
}

proof fn lemma_terminator_bounds(lv: Seq<Seq<u8>>, i: int)
    ensures
        first_terminator_from(lv, i) matches Some(t) ==> i <= t < lv.len() && is_terminator(
            lv[t],
        ) && forall|j: int| i <= j < t ==> !is_terminator(#[trigger] lv[j]),
    decreases lv.len() - i,
{
    if 0 <= i < lv.len() {
        lemma_terminator_bounds(lv, i + 1);
    }
}

/// Stuffs one line for transmission.
pub fn stuff_line(l: &Vec<u8>) -> (r: Vec<u8>)
    ensures
        r@ == stuff_line_spec(l@),
{
    if l.len() > 0 && l[0] == DOT {
        let mut out: Vec<u8> = Vec::new();
        out.push(DOT);
        let mut i: usize = 0;
        while i < l.len()
            invariant
                i <= l.len(),
                out@ == seq![DOT] + l@.subrange(0, i as int),
            decreases l.len() - i,
        {
            out.push(l[i]);
            i = i + 1;
            proof {
                assert(out@ =~= seq![DOT] + l@.subrange(0, i as int));
            }
        }
        proof {
            assert(l@.subrange(0, l@.len() as int) =~= l@);
        }
        out
    } else {
        l.clone()
    }
}

/// Unstuffs one received line.
pub fn unstuff_line(l: &Vec<u8>) -> (r: Vec<u8>)
    ensures
        r@ == unstuff_line_spec(l@),
{
    if l.len() > 0 && l[0] == DOT {
        let mut out: Vec<u8> = Vec::new();
        let mut i: usize = 1;
        while i < l.len()
            invariant
                1 <= i <= l.len(),
                l@.len() > 0,
                out@ == l@.subrange(1, i as int),
            decreases l.len() - i,
        {
            out.push(l[i]);
            i = i + 1;
            proof {
                assert(out@ =~= l@.subrange(1, i as int));
            }
        }
        proof {
            assert(l@.subrange(1, l@.len() as int) =~= l@.drop_first());
        }
        out
    } else {
        l.clone()
    }
}

/// Stuffs a whole body for transmission.
pub fn stuff(body: &Vec<Vec<u8>>) -> (r: Vec<Vec<u8>>)
    ensures
        r@.map_values(|l: Vec<u8>| l@) == stuff_spec(body@.map_values(|l: Vec<u8>| l@)),
{
    let mut out: Vec<Vec<u8>> = Vec::new();
    let mut i: usize = 0;
    while i < body.len()
        invariant
            i <= body.len(),
            out@.map_values(|l: Vec<u8>| l@) =~= stuff_spec(
                body@.map_values(|l: Vec<u8>| l@).subrange(0, i as int),
            ),
        decreases body.len() - i,
    {
        let ghost prev = out@.map_values(|l: Vec<u8>| l@);
        out.push(stuff_line(&body[i]));
        proof {
            let bv = body@.map_values(|l: Vec<u8>| l@);
            assert(out@.map_values(|l: Vec<u8>| l@) =~= prev.push(stuff_line_spec(bv[i as int])));
            assert(bv.subrange(0, i + 1) =~= bv.subrange(0, i as int).push(bv[i as int]));
            assert(stuff_spec(bv.subrange(0, i + 1)) =~~= stuff_spec(
                bv.subrange(0, i as int),
            ).push(stuff_line_spec(bv[i as int])));
            assert(out@.map_values(|l: Vec<u8>| l@) =~= stuff_spec(bv.subrange(0, i + 1)));
        }
        i = i + 1;
    }
    proof {
        assert(body@.map_values(|l: Vec<u8>| l@).subrange(0, body@.len() as int) =~= body@.map_values(
            |l: Vec<u8>| l@,
        ));
    }
    out
}

/// Unstuffs a whole body.
pub fn unstuff(body: &Vec<Vec<u8>>) -> (r: Vec<Vec<u8>>)
    ensures
        r@.map_values(|l: Vec<u8>| l@) == unstuff_spec(body@.map_values(|l: Vec<u8>| l@)),
{
    let mut out: Vec<Vec<u8>> = Vec::new();
    let mut i: usize = 0;
    while i < body.len()
        invariant
            i <= body.len(),
            out@.map_values(|l: Vec<u8>| l@) =~= unstuff_spec(
                body@.map_values(|l: Vec<u8>| l@).subrange(0, i as int),
            ),
        decreases body.len() - i,
    {
        let ghost prev = out@.map_values(|l: Vec<u8>| l@);
        out.push(unstuff_line(&body[i]));
        proof {
            let bv = body@.map_values(|l: Vec<u8>| l@);
            assert(out@.map_values(|l: Vec<u8>| l@) =~= prev.push(unstuff_line_spec(bv[i as int])));
            assert(bv.subrange(0, i + 1) =~= bv.subrange(0, i as int).push(bv[i as int]));
            assert(unstuff_spec(bv.subrange(0, i + 1)) =~~= unstuff_spec(
                bv.subrange(0, i as int),
            ).push(unstuff_line_spec(bv[i as int])));
            assert(out@.map_values(|l: Vec<u8>| l@) =~= unstuff_spec(bv.subrange(0, i + 1)));
        }
        i = i + 1;
    }
    proof {
        assert(body@.map_values(|l: Vec<u8>| l@).subrange(0, body@.len() as int) =~= body@.map_values(
            |l: Vec<u8>| l@,
        ));
    }
    out
}

} // verus!
