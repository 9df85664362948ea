//! The text of literals: digits of integers and escapes of strings.

use vstd::prelude::*;

verus! {

/// `char::from_u32` gives the character with the given scalar value, and
/// nothing for a surrogate or a value beyond `0x10FFFF`.
pub assume_specification[ char::from_u32 ](i: u32) -> (r: Option<char>)
    ensures
        r == scalar_char(i as int),
;

/// `String::push` appends one character to the end of the string.
pub assume_specification[ std::string::String::push ](s: &mut std::string::String, ch: char)
    ensures
        final(s)@ == old(s)@.push(ch),
;

/// The character with scalar value `v`, where there is one.
pub open spec fn scalar_char(v: int) -> Option<char> {
    if (0 <= v <= 0xD7FF) || (0xE000 <= v <= 0x10FFFF) {
        Some(v as char)
    } else {
        None
    }
}

/// The value of `c` as a digit: `0` to `9`, then the letters of either case
/// from ten on. Nothing where that value is not below `radix`.
pub open spec fn digit_value(c: char, radix: int) -> Option<int> {
    let v = if '0' <= c && c <= '9' {
        c as int - '0' as int
    } else if 'a' <= c && c <= 'z' {
        c as int - 'a' as int + 10
    } else if 'A' <= c && c <= 'Z' {
        c as int - 'A' as int + 10
    } else {
        radix
    };
    if v < radix {
        Some(v)
    } else {
        None
    }
}

/// The number that the digits `w` write in `radix`, most significant digit
/// first. Nothing where `w` is empty or holds anything but digits.
pub open spec fn digits_value(w: Seq<char>, radix: int) -> Option<int>
    decreases w.len(),
{
    if w.len() == 0 {
        None
    } else if w.len() == 1 {
        digit_value(w[0], radix)
    } else {
        match (digits_value(w.drop_last(), radix), digit_value(w.last(), radix)) {
            (Some(high), Some(d)) => Some(high * radix + d),
            _ => None,
        }
    }
}

/// The number that the digits write, where it fits 64 bits.
pub open spec fn magnitude(w: Seq<char>, radix: int) -> Option<u64> {
    match digits_value(w, radix) {
        Some(v) => if v <= u64::MAX {
            Some(v as u64)
        } else {
            None
        },
        None => None,
    }
}

/// The value of one digit.
pub fn digit_of(c: char, radix: u32) -> (r: Option<u32>)
    requires
        2 <= radix <= 36,
    ensures
        r is Some == digit_value(c, radix as int) is Some,
        r is Some ==> r->0 == digit_value(c, radix as int)->0,
{
    let v: u32 = c as u32;
    let d: u32 = if '0' <= c && c <= '9' {
        v - 48
    } else if 'a' <= c && c <= 'z' {
        v - 97 + 10
    } else if 'A' <= c && c <= 'Z' {
        v - 65 + 10
    } else {
        radix
    };
    if d < radix {
        Some(d)
    } else {
        None
    }
}

/// Digits never write a negative number.
pub proof fn lemma_digits_value_nonnegative(w: Seq<char>, radix: int)
    requires
        radix >= 1,
    ensures
        digits_value(w, radix) is Some ==> digits_value(w, radix)->0 >= 0,
    decreases w.len(),
{
    if w.len() > 1 {
        lemma_digits_value_nonnegative(w.drop_last(), radix);
        if digits_value(w, radix) is Some {
            let high = digits_value(w.drop_last(), radix)->0;
            assert(high * radix >= 0) by (nonlinear_arith)
                requires
                    high >= 0,
                    radix >= 1,
            ;
        }
    }
}

/// Reads the characters of `chars` from `from` up to `to` as digits in
/// `radix`.
pub fn parse_digits(chars: &Vec<char>, from: usize, to: usize, radix: u32) -> (r: Option<u64>)
    requires
        from <= to <= chars.len(),
        2 <= radix <= 36,
    ensures
        r == magnitude(chars@.subrange(from as int, to as int), radix as int),
{
    let ghost w = chars@.subrange(from as int, to as int);
    if from == to {
        return None;
    }
    let mut acc: u64 = 0;
    let mut bad = false;
    let mut over = false;
    let mut k: usize = from;
    while k < to
        invariant
            from <= k <= to <= chars.len(),
            2 <= radix <= 36,
            w == chars@.subrange(from as int, to as int),
            k == from ==> acc == 0 && !bad && !over,
            k > from && bad ==> digits_value(w.take(k - from), radix as int) is None,
            k > from && !bad && !over ==> digits_value(w.take(k - from), radix as int) == Some(
                acc as int,
            ),
            k > from && !bad && over ==> digits_value(w.take(k - from), radix as int) is Some
                && digits_value(w.take(k - from), radix as int)->0 > u64::MAX,
        decreases to - k,
    {
        let ghost prefix = w.take(k - from);
        let ghost longer = w.take(k + 1 - from);
        let ghost r = radix as int;
        let c = chars[k];
        let digit = digit_of(c, radix);
        proof {
            assert(longer.drop_last() =~= prefix);
            assert(longer.last() == c);
            assert(longer.len() == k + 1 - from);
            assert(prefix.len() == k - from);
            if k == from {
                assert(longer[0] == c);
                assert(digits_value(longer, r) == digit_value(c, r));
            } else {
                assert(digits_value(longer, r) == match (
                    digits_value(prefix, r),
                    digit_value(c, r),
                ) {
                    (Some(high), Some(d)) => Some(high * r + d),
                    _ => None,
                });
            }
        }
        match digit {
            Some(d) => {
                if !bad && !over {
                    assert(acc * radix <= u64::MAX * 36) by (nonlinear_arith)
                        requires
                            acc <= u64::MAX,
                            radix <= 36,
                    ;
                    let wide: u128 = (acc as u128) * (radix as u128) + (d as u128);
                    if wide > u64::MAX as u128 {
                        over = true;
                    } else {
                        acc = wide as u64;
                    }
                } else if !bad {
                    proof {
                        let high = digits_value(prefix, r)->0;
                        assert(high * r + d > u64::MAX) by (nonlinear_arith)
                            requires
                                high > u64::MAX,
                                r >= 2,
                                d >= 0,
                        ;
                    }
                }
            },
            None => {
                bad = true;
            },
        }
        k = k + 1;
    }
    assert(w.take(to - from) =~= w);
    if bad || over {
        None
    } else {
        Some(acc)
    }
}

/// Where the run of hexadecimal digits that starts at `p` ends.
pub open spec fn hex_run(w: Seq<char>, p: int) -> int
    decreases w.len() - p,
{
    if 0 <= p < w.len() && digit_value(w[p], 16) is Some {
        hex_run(w, p + 1)
    } else {
        p
    }
}

/// The escape whose backslash stands at index `i` of `w`: the character it
/// stands for and the number of characters that follow its first two.
/// Nothing where the escape is not one of the defined ones or the text ends
/// within it.
pub open spec fn escape_at(w: Seq<char>, i: int) -> Option<(char, nat)> {
    if i + 1 >= w.len() {
        None
    } else {
        let e = w[i + 1];
        if e == 'n' {
            Some(('\n', 0nat))
        } else if e == 'r' {
            Some(('\r', 0nat))
        } else if e == 't' {
            Some(('\t', 0nat))
        } else if e == '0' {
            Some(('\0', 0nat))
        } else if e == '\\' {
            Some(('\\', 0nat))
        } else if e == '"' {
            Some(('"', 0nat))
        } else if e == 'x' {
            if i + 3 < w.len() {
                match (digit_value(w[i + 2], 16), digit_value(w[i + 3], 16)) {
                    (Some(high), Some(low)) => if high <= 7 {
                        Some(((high * 16 + low) as char, 2nat))
                    } else {
                        None
                    },
                    _ => None,
                }
            } else {
                None
            }
        } else if e == 'u' {
            let end = hex_run(w, i + 3);
            if i + 2 < w.len() && w[i + 2] == '{' && 1 <= end - (i + 3) <= 6 && end < w.len()
                && w[end] == '}' {
                match digits_value(w.subrange(i + 3, end), 16) {
                    Some(v) => match scalar_char(v) {
                        Some(c) => Some((c, (end - (i + 3) + 2) as nat)),
                        None => None,
                    },
                    None => None,
                }
            } else {
                None
            }
        } else {
            None
        }
    }
}

/// `c` put before what `rest` holds; a failure stays as it is.
pub open spec fn prepend(c: char, rest: Result<Seq<char>, int>) -> Result<Seq<char>, int> {
    match rest {
        Ok(s) => Ok(seq![c] + s),
        Err(e) => Err(e),
    }
}

/// The characters that the string body from index `i` of `w` stands for, up
/// to the first quote that no backslash hides, or the index of the first
/// backslash that starts no defined escape.
pub open spec fn unescape_from(w: Seq<char>, i: int) -> Result<Seq<char>, int>
    decreases w.len() - i,
{
    if i < 0 || i >= w.len() || w[i] == '"' {
        Ok(Seq::empty())
    } else if w[i] == '\\' {
        match escape_at(w, i) {
            Some((c, more)) => prepend(c, unescape_from(w, i + 2 + more)),
            None => Err(i),
        }
    } else {
        prepend(w[i], unescape_from(w, i + 1))
    }
}

/// The characters that the string token `w` stands for; `w` starts with its
/// opening quote.
pub open spec fn unescape(w: Seq<char>) -> Result<Seq<char>, int> {
    unescape_from(w, 1)
}

/// `done` put before what `rest` holds; a failure stays as it is.
pub open spec fn glue(done: Seq<char>, rest: Result<Seq<char>, int>) -> Result<Seq<char>, int> {
    match rest {
        Ok(s) => Ok(done + s),
        Err(e) => Err(e),
    }
}

/// Pushing a character to what is done is putting it before the rest.
pub proof fn lemma_glue_push(done: Seq<char>, c: char, rest: Result<Seq<char>, int>)
    ensures
        glue(done.push(c), rest) == glue(done, prepend(c, rest)),
{
    if let Ok(s) = rest {
        assert(done.push(c) + s =~= done + (seq![c] + s));
    }
}

/// Reads the escape whose backslash stands at index `i` of the text that
/// `chars` holds from `from` up to `to`.
pub fn decode_escape(chars: &Vec<char>, from: usize, to: usize, i: usize) -> (r: Option<
    (char, usize),
>)
    requires
        from <= to <= chars.len(),
        i < to - from,
    ensures
        r is Some == escape_at(chars@.subrange(from as int, to as int), i as int) is Some,
        r is Some ==> {
            let found = escape_at(chars@.subrange(from as int, to as int), i as int)->0;
            let got = r->0;
            &&& got.0 == found.0
            &&& got.1 == found.1
            &&& i + 2 + got.1 <= to - from
        },
{
    let ghost w = chars@.subrange(from as int, to as int);
    let n: usize = to - from;
    if n - i < 2 {
        return None;
    }
    let e = chars[from + i + 1];
    assert(forall|k: int| 0 <= k < n ==> w[k] == chars@[from + k]);
    if e == 'n' {
        Some(('\n', 0))
    } else if e == 'r' {
        Some(('\r', 0))
    } else if e == 't' {
        Some(('\t', 0))
    } else if e == '0' {
        Some(('\0', 0))
    } else if e == '\\' {
        Some(('\\', 0))
    } else if e == '"' {
        Some(('"', 0))
    } else if e == 'x' {
        if n - i < 4 {
            return None;
        }
        match (digit_of(chars[from + i + 2], 16), digit_of(chars[from + i + 3], 16)) {
            (Some(high), Some(low)) => {
                if high <= 7 {
                    let v: u8 = (high * 16 + low) as u8;
                    assert(escape_at(w, i as int) == Some((v as char, 2nat)));
                    Some((v as char, 2))
                } else {
                    None
                }
            },
            _ => None,
        }
    } else if e == 'u' {
        if n - i < 3 {
            return None;
        }
        if chars[from + i + 2] != '{' {
            return None;
        }
        let first: usize = i + 3;
        let mut end: usize = first;
        while end < n && digit_of(chars[from + end], 16).is_some()
            invariant
                from + n == to <= chars.len(),
                w == chars@.subrange(from as int, to as int),
                first <= end <= n,
                hex_run(w, end as int) == hex_run(w, first as int),
            decreases n - end,
        {
            end = end + 1;
        }
        assert(hex_run(w, end as int) == end);
        if end - first < 1 || end - first > 6 || end >= n {
            return None;
        }
        if chars[from + end] != '}' {
            return None;
        }
        assert(chars@.subrange(from + first, from + end) =~= w.subrange(first as int, end as int));
        proof {
            lemma_digits_value_nonnegative(w.subrange(first as int, end as int), 16);
        }
        match parse_digits(chars, from + first, from + end, 16) {
            Some(v) => {
                if v > 0x10FFFF {
                    assert(escape_at(w, i as int) is None);
                    None
                } else {
                    match char::from_u32(v as u32) {
                        Some(c) => {
                            assert(escape_at(w, i as int) == Some((c, (end - first + 2) as nat)));
                            Some((c, end - first + 2))
                        },
                        None => {
                            assert(escape_at(w, i as int) is None);
                            None
                        },
                    }
                }
            },
            None => {
                assert(escape_at(w, i as int) is None);
                None
            },
        }
    } else {
        None
    }
}

/// Expands the escapes of the string token that `chars` holds from `from`
/// up to `to`, opening quote included. Fails with the index, within the
/// token, of the first backslash that starts no defined escape.
pub fn unescape_range(chars: &Vec<char>, from: usize, to: usize) -> (r: Result<String, usize>)
    requires
        from <= to <= chars.len(),
    ensures
        match unescape(chars@.subrange(from as int, to as int)) {
            Ok(s) => r is Ok && r->Ok_0@ == s,
            Err(i) => r is Err && r->Err_0 == i,
        },
{
    let ghost w = chars@.subrange(from as int, to as int);
    let n: usize = to - from;
    let mut out = String::new();
    let mut i: usize = 1;
    assert(out@ + Seq::<char>::empty() =~= out@);
    while i < n
        invariant
            from + n == to <= chars.len(),
            w == chars@.subrange(from as int, to as int),
            1 <= i,
            unescape(w) == glue(out@, unescape_from(w, i as int)),
        decreases n - i,
    {
        let c = chars[from + i];
        if c == '"' {
            assert(out@ + Seq::<char>::empty() =~= out@);
            return Ok(out);
        } else if c == '\\' {
            match decode_escape(chars, from, to, i) {
                Some((ch, more)) => {
                    proof {
                        lemma_glue_push(out@, ch, unescape_from(w, i + 2 + more));
                    }
                    out.push(ch);
                    i = i + 2 + more;
                },
                None => {
                    return Err(i);
                },
            }
        } else {
            proof {
                lemma_glue_push(out@, c, unescape_from(w, i + 1));
            }
            out.push(c);
            i = i + 1;
        }
    }
    assert(out@ + Seq::<char>::empty() =~= out@);
    Ok(out)
}

/// How a character is written inside a string so that it reads back as
/// itself: the characters that have a short escape by that escape, every
/// other character as it is.
pub open spec fn escape_char(c: char) -> Seq<char> {
    if c == '\n' {
        seq!['\\', 'n']
    } else if c == '\r' {
        seq!['\\', 'r']
    } else if c == '\t' {
        seq!['\\', 't']
    } else if c == '\0' {
        seq!['\\', '0']
    } else if c == '\\' {
        seq!['\\', '\\']
    } else if c == '"' {
        seq!['\\', '"']
    } else {
        seq![c]
    }
}

/// The characters of `cs`, each written by `escape_char`.
pub open spec fn escaped(cs: Seq<char>) -> Seq<char>
    decreases cs.len(),
{
    if cs.len() == 0 {
        Seq::empty()
    } else {
        escape_char(cs[0]) + escaped(cs.drop_first())
    }
}

/// Escaped characters between `before` and a closing quote read back, from
/// the end of `before` on, as the characters themselves.
pub proof fn lemma_unescape_escaped_from(before: Seq<char>, cs: Seq<char>)
    ensures
        unescape_from(before + escaped(cs) + seq!['"'], before.len() as int) == Ok::<
            Seq<char>,
            int,
        >(cs),
    decreases cs.len(),
{
    let w = before + escaped(cs) + seq!['"'];
    let i = before.len() as int;
    if cs.len() == 0 {
        assert(w[i] == '"');
        assert(cs =~= Seq::<char>::empty());
    } else {
        let c = cs[0];
        let rest = cs.drop_first();
        let head = escape_char(c);
        let longer = before + head;
        assert(w =~= longer + escaped(rest) + seq!['"']);
        lemma_unescape_escaped_from(longer, rest);
        assert(w[i] == head[0]);
        assert(seq![c] + rest =~= cs);
        if head.len() == 2 {
            assert(w[i + 1] == head[1]);
            assert(escape_at(w, i) == Some((c, 0nat)));
        }
    }
}

/// Unescaping a string and writing the result with escapes again is a
/// string that unescapes to the same characters.
pub proof fn lemma_unescape_escape_round_trip(w: Seq<char>)
    requires
        unescape(w) is Ok,
    ensures
        unescape(seq!['"'] + escaped(unescape(w)->Ok_0) + seq!['"']) == unescape(w),
{
    lemma_unescape_escaped_from(seq!['"'], unescape(w)->Ok_0);
}

} // verus!
