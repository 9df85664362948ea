//! Characters, their UTF-8 widths and the conversions between strings and
//! character vectors.

use vstd::prelude::*;
use vstd::string::*;
use vstd::utf8::*;
use vstd::std_specs::iter::IteratorSpec;

verus! {

/// Number of bytes that `c` takes in UTF-8.
pub open spec fn utf8_width(c: char) -> nat {
    if (c as u32) < 0x80 {
        1
    } else if (c as u32) < 0x800 {
        2
    } else if (c as u32) < 0x10000 {
        3
    } else {
        4
    }
}

/// Number of bytes that the characters of `s` take in UTF-8.
pub open spec fn byte_len(s: Seq<char>) -> nat
    decreases s.len(),
{
    if s.len() == 0 {
        0
    } else {
        utf8_width(s[0]) + byte_len(s.drop_first())
    }
}

/// Byte offset at which the character with index `i` starts.
pub open spec fn byte_offset(s: Seq<char>, i: int) -> nat {
    byte_len(s.take(i))
}

/// The byte length defined here is the length of the UTF-8 encoding.
pub proof fn lemma_byte_len_is_encoded_len(s: Seq<char>)
    ensures
        byte_len(s) == encode_utf8(s).len(),
    decreases s.len(),
{
    if s.len() > 0 {
        let c = s[0];
        char_is_scalar(c);
        assert(encode_scalar(c as u32).len() == utf8_width(c));
        lemma_byte_len_is_encoded_len(s.drop_first());
    }
}

/// Appending one character adds its width.
pub proof fn lemma_byte_len_push(s: Seq<char>, c: char)
    ensures
        byte_len(s.push(c)) == byte_len(s) + utf8_width(c),
    decreases s.len(),
{
    if s.len() == 0 {
        assert(s.push(c).drop_first() =~= s);
    } else {
        assert(s.push(c).drop_first() =~= s.drop_first().push(c));
        lemma_byte_len_push(s.drop_first(), c);
    }
}

/// The offset of the next character is the offset of this one plus its width.
pub proof fn lemma_byte_offset_step(s: Seq<char>, i: int)
    requires
        0 <= i < s.len(),
    ensures
        byte_offset(s, i + 1) == byte_offset(s, i) + utf8_width(s[i]),
{
    assert(s.take(i + 1) =~= s.take(i).push(s[i]));
    lemma_byte_len_push(s.take(i), s[i]);
}

/// Offsets grow by at least one byte per character.
pub proof fn lemma_byte_offset_grows(s: Seq<char>, i: int, j: int)
    requires
        0 <= i <= j <= s.len(),
    ensures
        byte_offset(s, i) + (j - i) <= byte_offset(s, j),
    decreases j - i,
{
    if i < j {
        lemma_byte_offset_grows(s, i, j - 1);
        lemma_byte_offset_step(s, j - 1);
    }
}

/// The offset of the end of the text is its byte length.
pub proof fn lemma_byte_offset_end(s: Seq<char>)
    ensures
        byte_offset(s, s.len() as int) == byte_len(s),
        byte_offset(s, 0) == 0,
{
    assert(s.take(s.len() as int) =~= s);
    assert(s.take(0).len() == 0);
}

/// Width of a character in bytes.
pub fn char_width(c: char) -> (w: usize)
    ensures
        w == utf8_width(c),
{
    let v: u32 = c as u32;
    if v < 0x80 {
        1
    } else if v < 0x800 {
        2
    } else if v < 0x10000 {
        3
    } else {
        4
    }
}

/// The characters of a string, in order.
pub fn chars_of(s: &str) -> (v: Vec<char>)
    ensures
        v@ == s@,
{
    broadcast use vstd::string::group_string_axioms;

    let mut it = s.chars();
    let mut v: Vec<char> = Vec::new();
    loop
        invariant
            v@ + it.remaining() == s@,
            it.decrease() is Some,
        ensures
            it.remaining().len() == 0,
        decreases it.decrease()->0,
    {
        let ghost before = it;
        let ghost done = v@;
        match it.next() {
            Some(c) => {
                v.push(c);
                assert(v@ + it.remaining() =~= done + before.remaining());
            },
            None => {
                break ;
            },
        }
    }
    assert(v@ + it.remaining() =~= v@);
    v
}

/// The offset of a later character is the offset of an earlier one plus the
/// bytes of the characters between them.
pub proof fn lemma_byte_offset_between(s: Seq<char>, i: int, j: int)
    requires
        0 <= i <= j <= s.len(),
    ensures
        byte_offset(s, j) == byte_offset(s, i) + byte_len(s.subrange(i, j)),
    decreases j - i,
{
    if i == j {
        assert(s.subrange(i, j).len() == 0);
    } else {
        lemma_byte_offset_between(s, i, j - 1);
        lemma_byte_offset_step(s, j - 1);
        assert(s.subrange(i, j) =~= s.subrange(i, j - 1).push(s[j - 1]));
        lemma_byte_len_push(s.subrange(i, j - 1), s[j - 1]);
    }
}

/// Number of line feeds in `w`.
pub open spec fn count_newlines(w: Seq<char>) -> nat
    decreases w.len(),
{
    if w.len() == 0 {
        0
    } else {
        count_newlines(w.drop_last()) + if w.last() == '\n' {
            1nat
        } else {
            0nat
        }
    }
}

/// Number of bytes after the last line feed of `w`; of all of `w` where it
/// holds none.
pub open spec fn last_line_bytes(w: Seq<char>) -> nat
    decreases w.len(),
{
    if w.len() == 0 {
        0
    } else if w.last() == '\n' {
        0
    } else {
        last_line_bytes(w.drop_last()) + utf8_width(w.last())
    }
}

/// Without a line feed the last line is the whole text.
pub proof fn lemma_single_line(w: Seq<char>)
    ensures
        count_newlines(w) <= byte_len(w),
        last_line_bytes(w) <= byte_len(w),
        count_newlines(w) == 0 ==> last_line_bytes(w) == byte_len(w),
    decreases w.len(),
{
    if w.len() > 0 {
        lemma_single_line(w.drop_last());
        assert(w.drop_last().push(w.last()) =~= w);
        lemma_byte_len_push(w.drop_last(), w.last());
    }
}

/// Counts the line feeds among the characters of `chars` from `from` up to
/// `to`, the bytes after the last of them, and the bytes of them all.
pub fn measure(chars: &Vec<char>, from: usize, to: usize) -> (r: (usize, usize, usize))
    requires
        from <= to <= chars.len(),
        byte_len(chars@.subrange(from as int, to as int)) <= usize::MAX,
    ensures
        r.0 == count_newlines(chars@.subrange(from as int, to as int)),
        r.1 == last_line_bytes(chars@.subrange(from as int, to as int)),
        r.2 == byte_len(chars@.subrange(from as int, to as int)),
{
    let ghost w = chars@.subrange(from as int, to as int);
    let mut lines: usize = 0;
    let mut last: usize = 0;
    let mut total: usize = 0;
    let mut k: usize = from;
    proof {
        assert(w.take(0).len() == 0);
        lemma_byte_offset_end(w);
    }
    while k < to
        invariant
            from <= k <= to <= chars.len(),
            w == chars@.subrange(from as int, to as int),
            byte_len(w) <= usize::MAX,
            lines == count_newlines(w.take(k - from)),
            last == last_line_bytes(w.take(k - from)),
            total == byte_len(w.take(k - from)),
        decreases to - k,
    {
        let c = chars[k];
        proof {
            let shorter = w.take(k - from);
            let longer = w.take(k + 1 - from);
            assert(longer.drop_last() =~= shorter);
            assert(longer.last() == c);
            assert(longer =~= shorter.push(c));
            lemma_byte_len_push(shorter, c);
            lemma_single_line(longer);
            lemma_byte_offset_grows(w, k + 1 - from, w.len() as int);
            lemma_byte_offset_end(w);
        }
        let width: usize = char_width(c);
        total = total + width;
        if c == '\n' {
            lines = lines + 1;
            last = 0;
        } else {
            last = last + width;
        }
        k = k + 1;
    }
    assert(w.take(to - from) =~= w);
    (lines, last, total)
}

/// Whether the text is short enough for its lines and columns to be counted
/// in 32 bits.
pub fn fits(src: &str) -> (ok: bool)
    ensures
        ok == (byte_len(src@) <= u32::MAX),
{
    let bytes = src.as_bytes();
    proof {
        assert(src.spec_bytes() == encode_utf8(src@));
        lemma_byte_len_is_encoded_len(src@);
    }
    bytes.len() <= 0xffff_ffff
}

} // verus!
