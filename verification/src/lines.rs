//! Cutting decoded text into lines.

use vstd::prelude::*;
use vstd::utf8::{decode_utf8, encode_utf8, is_char_boundary, valid_utf8};

verus! {

/// The character sequences of a sequence of strings.
pub open spec fn texts(strings: Seq<String>) -> Seq<Seq<char>> {
    strings.map_values(|s: String| s@)
}

/// Where the first line feed of `s` stands, or the length of `s` if it has none.
pub open spec fn newline_at(s: Seq<char>) -> int
    decreases s.len(),
{
    if s.len() == 0 || s[0] == '\n' {
        0
    } else {
        1 + newline_at(s.drop_first())
    }
}

/// `line` without the one carriage return that may end it.
pub open spec fn strip_cr(line: Seq<char>) -> Seq<char> {
    if line.len() > 0 && line.last() == '\r' {
        line.drop_last()
    } else {
        line
    }
}

/// The lines of `s` that a line feed ends, without that line feed and as they stand otherwise.
pub open spec fn raw_lines(s: Seq<char>) -> Seq<Seq<char>>
    decreases s.len(),
    via raw_lines_shrinks
{
    let k = newline_at(s);
    if k >= s.len() {
        Seq::empty()
    } else {
        seq![s.take(k)] + raw_lines(s.skip(k + 1))
    }
}

#[via_fn]
proof fn raw_lines_shrinks(s: Seq<char>) {
    lemma_newline_at(s);
}

/// What stands in `s` after its last line feed.
pub open spec fn unfinished(s: Seq<char>) -> Seq<char>
    decreases s.len(),
    via unfinished_shrinks
{
    let k = newline_at(s);
    if k >= s.len() {
        s
    } else {
        unfinished(s.skip(k + 1))
    }
}

#[via_fn]
proof fn unfinished_shrinks(s: Seq<char>) {
    lemma_newline_at(s);
}

/// The finished lines of `s` without their line endings (`\n` or `\r\n`).
pub open spec fn complete_lines(s: Seq<char>) -> Seq<Seq<char>> {
    raw_lines(s).map_values(|line: Seq<char>| strip_cr(line))
}

/// [`newline_at`] is the index of the first line feed.
pub proof fn lemma_newline_at(s: Seq<char>)
    ensures
        0 <= newline_at(s) <= s.len(),
        newline_at(s) < s.len() ==> s[newline_at(s)] == '\n',
        forall|i: int| 0 <= i < newline_at(s) ==> s[i] != '\n',
    decreases s.len(),
{
    if s.len() > 0 && s[0] != '\n' {
        let rest = s.drop_first();
        lemma_newline_at(rest);
        assert forall|i: int| 0 <= i < newline_at(s) implies s[i] != '\n' by {
            if i > 0 {
                assert(s[i] == rest[i - 1]);
            }
        }
    }
}

/// What stands after the last line feed holds none.
pub proof fn lemma_unfinished_has_no_feed(s: Seq<char>)
    ensures
        forall|i: int| 0 <= i < unfinished(s).len() ==> unfinished(s)[i] != '\n',
    decreases s.len(),
{
    lemma_newline_at(s);
    if newline_at(s) < s.len() {
        let rest = s.skip(newline_at(s) + 1);
        lemma_unfinished_has_no_feed(rest);
        assert(unfinished(s) == unfinished(rest));
    } else {
        assert(unfinished(s) == s);
    }
}

/// A line feed with none before it is where [`newline_at`] points.
proof fn lemma_newline_at_unique(s: Seq<char>, k: int)
    requires
        0 <= k <= s.len(),
        k < s.len() ==> s[k] == '\n',
        forall|i: int| 0 <= i < k ==> s[i] != '\n',
    ensures
        newline_at(s) == k,
{
    lemma_newline_at(s);
}

/// An ASCII byte in an encoding stands for that character alone, and cuts the text in two.
proof fn lemma_ascii_cut(s: Seq<char>, k: int, c: char)
    requires
        c <= '\u{7f}',
        0 <= k < encode_utf8(s).len(),
        encode_utf8(s)[k] == c as u8,
    ensures
        ({
            let bytes = encode_utf8(s);
            let left = bytes.subrange(0, k);
            let right = bytes.subrange(k, bytes.len() as int);
            let after = right.subrange(1, right.len() as int);
            &&& is_char_boundary(bytes, k)
            &&& valid_utf8(left)
            &&& valid_utf8(right)
            &&& is_char_boundary(right, 1)
            &&& valid_utf8(after)
            &&& s == decode_utf8(left).push(c) + decode_utf8(after)
        }),
{
    broadcast use {
        vstd::utf8::encode_utf8_valid_utf8,
        vstd::utf8::encode_utf8_decode_utf8,
        vstd::utf8::is_char_boundary_iff_not_is_continuation_byte,
        vstd::utf8::valid_utf8_split,
        vstd::utf8::decode_utf8_split,
    };

    let bytes = encode_utf8(s);
    let left = bytes.subrange(0, k);
    let right = bytes.subrange(k, bytes.len() as int);
    let after = right.subrange(1, right.len() as int);
    assert(!vstd::utf8::is_continuation_byte(bytes[k]));
    assert(is_char_boundary(bytes, k));
    assert(valid_utf8(left));
    assert(valid_utf8(right));
    assert(right[0] == c as u8);
    assert(vstd::utf8::pop_first_scalar(right) =~= after);
    assert(is_char_boundary(right, 1)) by {
        reveal_with_fuel(is_char_boundary, 2);
    }
    assert(decode_utf8(bytes) == decode_utf8(left) + decode_utf8(right));
    let b: u8 = right[0];
    assert((b & 0x7f) as u32 == b as u32) by (bit_vector)
        requires
            b <= 0x7f,
    ;
    assert(vstd::utf8::decode_first_scalar(right) == c as u32);
    assert(decode_utf8(right) =~= seq![c] + decode_utf8(after));
    assert(s =~= decode_utf8(left).push(c) + decode_utf8(after));
}

/// A character that a text holds shows up as its byte in the encoding, if it is ASCII.
proof fn lemma_ascii_present(s: Seq<char>, j: int, c: char) -> (i: int)
    requires
        c <= '\u{7f}',
        0 <= j < s.len(),
        s[j] == c,
    ensures
        0 <= i < encode_utf8(s).len(),
        encode_utf8(s)[i] == c as u8,
    decreases s.len(),
{
    let head = vstd::utf8::encode_scalar(s[0] as u32);
    if j == 0 {
        vstd::utf8::is_ascii_chars_encode_utf8(seq![c]);
        assert(seq![c].drop_first() =~= Seq::empty());
        assert(encode_utf8(seq![c]) =~= head) by {
            reveal_with_fuel(encode_utf8, 2);
        }
        assert(head[0] == c as u8);
        0
    } else {
        let i = lemma_ascii_present(s.drop_first(), j - 1, c);
        assert(encode_utf8(s)[head.len() + i] == encode_utf8(s.drop_first())[i]);
        head.len() + i
    }
}

/// Where `byte` first stands in `bytes`.
fn find_byte(bytes: &[u8], byte: u8) -> (found: Option<usize>)
    ensures
        match found {
            Some(k) => {
                &&& k < bytes@.len()
                &&& bytes@[k as int] == byte
                &&& forall|i: int| 0 <= i < k ==> bytes@[i] != byte
            },
            None => forall|i: int| 0 <= i < bytes@.len() ==> bytes@[i] != byte,
        },
{
    let mut k: usize = 0;
    while k < bytes.len()
        invariant
            k <= bytes@.len(),
            forall|i: int| 0 <= i < k ==> bytes@[i] != byte,
        decreases bytes@.len() - k,
    {
        if bytes[k] == byte {
            return Some(k);
        }
        k = k + 1;
    }
    None
}

/// `line` without the one carriage return that may end it.
pub fn strip_carriage_return(line: &str) -> (stripped: &str)
    ensures
        stripped@ == strip_cr(line@),
{
    broadcast use vstd::utf8::encode_utf8_decode_utf8;

    let bytes = line.as_bytes();
    let n = bytes.len();
    if n > 0 && bytes[n - 1] == 13u8 {
        proof {
            lemma_ascii_cut(line@, n - 1, '\r');
        }
        let (kept, _ending) = line.split_at(n - 1);
        proof {
            let right = encode_utf8(line@).subrange(n - 1, n as int);
            assert(right.subrange(1, right.len() as int) =~= Seq::<u8>::empty());
            assert(line@ =~= kept@.push('\r'));
            assert(line@.drop_last() =~= kept@);
        }
        kept
    } else {
        proof {
            if line@.len() > 0 && line@.last() == '\r' {
                lemma_last_byte(line@, '\r');
            }
        }
        line
    }
}

/// The last character of a text ends its encoding, if it is ASCII.
proof fn lemma_last_byte(s: Seq<char>, c: char)
    requires
        c <= '\u{7f}',
        s.len() > 0,
        s.last() == c,
    ensures
        encode_utf8(s).len() > 0,
        encode_utf8(s).last() == c as u8,
    decreases s.len(),
{
    if s.len() == 1 {
        let i = lemma_ascii_present(s, 0, c);
        vstd::utf8::is_ascii_chars_encode_utf8(s);
    } else {
        lemma_last_byte(s.drop_first(), c);
    }
}

/// Cuts `text` into its finished lines, without their line endings, and what follows the last of
/// them.
pub fn split_lines(text: &str) -> (cut: (Vec<String>, String))
    ensures
        texts(cut.0@) == complete_lines(text@),
        cut.1@ == unfinished(text@),
{
    let mut lines: Vec<String> = Vec::new();
    let mut rest: &str = text;
    proof {
        assert(texts(lines@) + complete_lines(rest@) =~= complete_lines(text@));
    }
    loop
        invariant
            complete_lines(text@) == texts(lines@) + complete_lines(rest@),
            unfinished(text@) == unfinished(rest@),
        decreases rest@.len(),
    {
        let bytes = rest.as_bytes();
        match find_byte(bytes, 10u8) {
            None => {
                proof {
                    lemma_newline_at(rest@);
                    if newline_at(rest@) < rest@.len() {
                        let i = lemma_ascii_present(rest@, newline_at(rest@), '\n');
                    }
                    assert(complete_lines(rest@) =~= Seq::empty());
                    assert(texts(lines@) + complete_lines(rest@) =~= texts(lines@));
                }
                return (lines, String::from_str(rest));
            },
            Some(k) => {
                proof {
                    lemma_ascii_cut(rest@, k as int, '\n');
                }
                let (line, tail) = rest.split_at(k);
                let (_feed, after) = tail.split_at(1);
                proof {
                    vstd::utf8::encode_utf8_decode_utf8(line@);
                    vstd::utf8::encode_utf8_decode_utf8(after@);
                    assert(rest@ =~= line@.push('\n') + after@);
                    assert forall|i: int| 0 <= i < line@.len() implies rest@[i] != '\n' by {
                        if line@[i] == '\n' {
                            let j = lemma_ascii_present(line@, i, '\n');
                            assert(encode_utf8(line@)[j] == bytes@[j]);
                        }
                    }
                    lemma_newline_at_unique(rest@, line@.len() as int);
                    assert(rest@.take(line@.len() as int) =~= line@);
                    assert(rest@.skip(line@.len() as int + 1) =~= after@);
                    assert(complete_lines(rest@) =~= seq![strip_cr(line@)] + complete_lines(after@));
                }
                let ghost before = lines@;
                lines.push(String::from_str(strip_carriage_return(line)));
                proof {
                    assert(texts(lines@) =~= texts(before).push(strip_cr(line@)));
                    assert(texts(lines@) + complete_lines(after@) =~= texts(before)
                        + complete_lines(rest@));
                }
                rest = after;
            },
        }
    }
}

} // verus!
