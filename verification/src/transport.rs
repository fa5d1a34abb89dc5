//! Local delivery framing: the mbox separator line with its quoting of
//! message lines, the maildir file names a message moves through, and the
//! text form of a message identifier.

use vstd::prelude::*;
use vstd::string::StringSliceAdditionalSpecFns;
use crate::reply::{append_bytes, text_bytes};

verus! {

/// The ASCII greater-than sign that quotes a separator look-alike.
pub const QUOTE: u8 = 62;

/// The ASCII bytes of `From` followed by a space, opening a separator.
pub open spec fn separator_prefix() -> Seq<u8> {
    seq![70u8, 114, 111, 109, 32]
}

/// A body line that would read as an mbox separator: it opens with
/// `From` and a space.
pub open spec fn looks_like_separator(l: Seq<u8>) -> bool {
    l.len() >= 5 && l.subrange(0, 5) == separator_prefix()
}

/// The quoting applied to one body line before an mbox append.
pub open spec fn mbox_quote_line_spec(l: Seq<u8>) -> Seq<u8> {
    if looks_like_separator(l) {
        seq![QUOTE] + l
    } else {
        l
    }
}

fn is_separator_line(l: &Vec<u8>) -> (r: bool)
    ensures
        r == looks_like_separator(l@),
{
    let mut from: Vec<u8> = Vec::new();
    from.push(70);
    from.push(114);
    from.push(111);
    from.push(109);
    from.push(32);
    proof {
        assert(from@ =~= separator_prefix());
    }
    if l.len() < 5 {
        proof {
            assert(!looks_like_separator(l@));
        }
        return false;
    }
    let mut i: usize = 0;
    while i < 5
        invariant
            i <= 5,
            l@.len() >= 5,
            from@ == separator_prefix(),
            forall|j: int| 0 <= j < i ==> l@[j] == from@[j],
        decreases 5 - i,
    {
        if l[i] != from[i] {
            proof {
                if looks_like_separator(l@) {
                    assert(l@.subrange(0, 5)[i as int] == from@[i as int]);
                }
            }
            return false;
        }
        i = i + 1;
    }
    proof {
        assert(l@.subrange(0, 5) =~= from@);
    }
    true
}

/// Frames a message for an mbox append: the separator line first, then
/// every body line, with a quote mark in front of any line that would
/// itself read as a separator.
pub fn mbox_frame(separator: &Vec<u8>, body: &Vec<Vec<u8>>) -> (r: Vec<Vec<u8>>)
    ensures
        r@.len() == body@.len() + 1,
        r@[0]@ == separator@,
        forall|i: int|
            0 <= i < body@.len() ==> (#[trigger] r@[i + 1])@ == mbox_quote_line_spec(body@[i]@),
{
    let mut out: Vec<Vec<u8>> = Vec::new();
    out.push(separator.clone());
    let mut i: usize = 0;
    while i < body.len()
        invariant
            i <= body@.len(),
            out@.len() == i + 1,
            out@[0]@ == separator@,
            forall|j: int|
                0 <= j < i ==> (#[trigger] out@[j + 1])@ == mbox_quote_line_spec(body@[j]@),
        decreases body@.len() - i,
    {
        let line = &body[i];
        if is_separator_line(line) {
            let mut quoted: Vec<u8> = Vec::new();
            quoted.push(QUOTE);
            append_bytes(&mut quoted, line);
            proof {
                assert(quoted@ =~= seq![QUOTE] + line@);
            }
            out.push(quoted);
        } else {
            out.push(line.clone());
        }
        i = i + 1;
    }
    out
}

/// The hexadecimal digit for a value below sixteen, lower-cased.
pub open spec fn hex_char(v: int) -> u8 {
    if v < 10 {
        (48 + v) as u8
    } else {
        (87 + v) as u8
    }
}

/// The nibble of `u` that the digit at position `d` of its text carries,
/// most significant first.
pub open spec fn nibble_of(u: u128, d: int) -> int {
    (u >> ((31 - d) * 4)) as u128 as int % 16
}

/// How many group-separating hyphens stand before text position `i`.
pub open spec fn hyphens_before(i: int) -> int {
    if i < 8 {
        0
    } else if i < 13 {
        1
    } else if i < 18 {
        2
    } else if i < 23 {
        3
    } else {
        4
    }
}

/// The canonical text of a message identifier: thirty-two lower-case
/// hexadecimal digits in the five hyphen-separated groups.
pub open spec fn uuid_text_spec(u: u128) -> Seq<u8> {
    Seq::new(36, |i: int| if i == 8 || i == 13 || i == 18 || i == 23 {
        crate::rules::UUID_DASH
    } else {
        hex_char(nibble_of(u, i - hyphens_before(i)))
    })
}

fn hex_char_exec(v: u8) -> (r: u8)
    requires
        v < 16,
    ensures
        r == hex_char(v as int),
{
    if v < 10 {
        48 + v
    } else {
        87 + v
    }
}

/// Writes a message identifier in its canonical text form.
pub fn format_uuid(u: u128) -> (r: Vec<u8>)
    ensures
        r@ == uuid_text_spec(u),
{
    let mut out: Vec<u8> = Vec::new();
    let mut i: usize = 0;
    while i < 36
        invariant
            i <= 36,
            out@.len() == i,
            forall|j: int| 0 <= j < i ==> out@[j] == uuid_text_spec(u)[j],
        decreases 36 - i,
    {
        if i == 8 || i == 13 || i == 18 || i == 23 {
            out.push(crate::rules::UUID_DASH);
        } else {
            let hyphens: usize = if i < 8 {
                0
            } else if i < 13 {
                1
            } else if i < 18 {
                2
            } else if i < 23 {
                3
            } else {
                4
            };
            let d = i - hyphens;
            let shift: u128 = ((31 - d) * 4) as u128;
            let nibble: u8 = ((u >> shift) % 16) as u8;
            proof {
                assert(nibble == nibble_of(u, d as int));
                assert(nibble < 16);
            }
            out.push(hex_char_exec(nibble));
        }
        i = i + 1;
        proof {
            assert(forall|j: int| 0 <= j < i ==> out@[j] == uuid_text_spec(u)[j]);
        }
    }
    proof {
        assert(out@ =~= uuid_text_spec(u));
    }
    out
}

/// The two file names a maildir delivery moves through: the message is
/// written under `tmp` and renamed into `new`.
pub fn maildir_paths(dirpath: &Vec<u8>, uuid: u128) -> (r: (Vec<u8>, Vec<u8>))
    ensures
        r.0@ == dirpath@ + "/tmp/".spec_bytes() + uuid_text_spec(uuid),
        r.1@ == dirpath@ + "/new/".spec_bytes() + uuid_text_spec(uuid) + ":2,".spec_bytes(),
{
    let text = format_uuid(uuid);
    let mut tmp = dirpath.clone();
    append_bytes(&mut tmp, &text_bytes("/tmp/"));
    append_bytes(&mut tmp, &text);
    let mut fresh = dirpath.clone();
    append_bytes(&mut fresh, &text_bytes("/new/"));
    append_bytes(&mut fresh, &text);
    append_bytes(&mut fresh, &text_bytes(":2,"));
    proof {
        assert(tmp@ =~= dirpath@ + "/tmp/".spec_bytes() + uuid_text_spec(uuid));
        assert(fresh@ =~= dirpath@ + "/new/".spec_bytes() + uuid_text_spec(uuid)
            + ":2,".spec_bytes());
    }
    (tmp, fresh)
}

} // verus!
