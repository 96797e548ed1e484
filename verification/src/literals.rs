//! Decoding of quoted char and string literals and their escape sequences.
use vstd::prelude::*;
use vstd::string::StringSliceAdditionalSpecFns;
use crate::text::push_char;

verus! {

/// The value of a hexadecimal digit, either case.
pub open spec fn hex_digit(c: char) -> Option<nat> {
    if '0' <= c && c <= '9' {
        Some((c as nat - '0' as nat) as nat)
    } else if 'a' <= c && c <= 'f' {
        Some((c as nat - 'a' as nat + 10) as nat)
    } else if 'A' <= c && c <= 'F' {
        Some((c as nat - 'A' as nat + 10) as nat)
    } else {
        None
    }
}

/// The number written by the hexadecimal digits `d`, if all of them are.
pub open spec fn hex_value(d: Seq<char>) -> Option<nat>
    decreases d.len(),
{
    if d.len() == 0 {
        Some(0)
    } else {
        match (hex_value(d.drop_last()), hex_digit(d.last())) {
            (Some(h), Some(l)) => Some(h * 16 + l),
            _ => None,
        }
    }
}

/// Parsing `s` as an unsigned 32-bit hexadecimal number, as
/// `u32::from_str_radix(s, 16)` documents it: an optional `+` followed by
/// one or more digits, with a value that fits in 32 bits.
pub open spec fn parse_hex(s: Seq<char>) -> Option<u32> {
    let d = if s.len() > 0 && s[0] == '+' { s.drop_first() } else { s };
    if d.len() == 0 {
        None
    } else {
        match hex_value(d) {
            Some(v) => if v <= u32::MAX { Some(v as u32) } else { None },
            None => None,
        }
    }
}

/// Whether `n` is a Unicode scalar value, that is, a valid `char`.
pub open spec fn is_scalar(n: u32) -> bool {
    n < 0xD800 || (0xE000 <= n && n <= 0x10FFFF)
}

/// The character a numeric escape with digits `d` denotes: the digits'
/// value (0 when they do not parse) as a character, or `'\0'` when that is
/// no Unicode scalar value.
pub open spec fn code_char(d: Seq<char>) -> char {
    let n: u32 = match parse_hex(d) {
        Some(v) => v,
        None => 0,
    };
    if is_scalar(n) {
        n as char
    } else {
        '\0'
    }
}

/// The position of the first `}` in `s` at or after `j`, or the length.
pub open spec fn close_brace(s: Seq<char>, j: int) -> int
    decreases s.len() - j,
{
    if j >= s.len() {
        s.len() as int
    } else if s[j] == '}' {
        j
    } else {
        close_brace(s, j + 1)
    }
}

pub proof fn lemma_close_brace(s: Seq<char>, j: int)
    requires
        0 <= j,
    ensures
        j <= close_brace(s, j) || j > s.len(),
        close_brace(s, j) <= s.len(),
        close_brace(s, j) < s.len() ==> s[close_brace(s, j)] == '}',
        forall|k: int| j <= k < close_brace(s, j) ==> s[k] != '}',
    decreases s.len() - j,
{
    if j < s.len() && s[j] != '}' {
        lemma_close_brace(s, j + 1);
    }
}

/// The escape sequence whose letter is at `i` (just past the backslash):
/// the character it denotes and the position after it. `\n \t \r \0 \a \b
/// \f \v \\ \' \"` are the usual control and quote characters; `\x` takes up
/// to two hexadecimal digits; `\u` skips one character (the `{`) and takes
/// the digits up to the next `}`, which it consumes too; any other
/// character stands for itself; at the end of the text the escape is `'\0'`.
pub open spec fn escape_spec(s: Seq<char>, i: int) -> (char, int) {
    if i < 0 || i >= s.len() {
        ('\0', i)
    } else {
        let c = s[i];
        if c == 'n' {
            ('\n', i + 1)
        } else if c == 't' {
            ('\t', i + 1)
        } else if c == 'r' {
            ('\r', i + 1)
        } else if c == '0' {
            ('\0', i + 1)
        } else if c == 'a' {
            ('\x07', i + 1)
        } else if c == 'b' {
            ('\x08', i + 1)
        } else if c == 'f' {
            ('\x0c', i + 1)
        } else if c == 'v' {
            ('\x0b', i + 1)
        } else if c == 'x' {
            let end = if i + 3 <= s.len() { i + 3 } else { s.len() as int };
            (code_char(s.subrange(i + 1, end)), end)
        } else if c == 'u' {
            let j = if i + 2 <= s.len() { i + 2 } else { s.len() as int };
            let k = close_brace(s, j);
            let next = if k < s.len() { k + 1 } else { s.len() as int };
            (code_char(s.subrange(j, k)), next)
        } else {
            (c, i + 1)
        }
    }
}

pub proof fn lemma_escape_advances(s: Seq<char>, i: int)
    requires
        0 <= i < s.len(),
    ensures
        i < escape_spec(s, i).1 <= s.len(),
{
    if s[i] == 'u' {
        let j = if i + 2 <= s.len() { i + 2 } else { s.len() as int };
        lemma_close_brace(s, j);
    }
}

/// The text `s[i..]` with its escape sequences decoded.
pub open spec fn decode_from(s: Seq<char>, i: int) -> Seq<char>
    decreases s.len() - i,
{
    if i < 0 || i >= s.len() {
        Seq::empty()
    } else if s[i] == '\\' {
        if i + 1 < s.len() {
            let (c, n) = escape_spec(s, i + 1);
            proof {
                lemma_escape_advances(s, i + 1);
            }
            seq![c] + decode_from(s, n)
        } else {
            seq!['\0']
        }
    } else {
        seq![s[i]] + decode_from(s, i + 1)
    }
}

/// The characters between the quotes of a literal.
pub open spec fn quoted_inner(raw: Seq<char>) -> Seq<char> {
    raw.subrange(1, raw.len() - 1)
}

/// Whether `raw` can be a quoted literal: at least the two quotes, each a
/// single byte, so that the text between them can be cut out.
pub open spec fn is_quoted_literal(raw: Seq<char>) -> bool {
    &&& raw.len() >= 2
    &&& (raw[0] as u32) < 128
    &&& (raw[raw.len() - 1] as u32) < 128
}

/// `char::from_u32`, which std documents as returning the `char` with the
/// given code point when it is a Unicode scalar value (below `0xD800`, or
/// from `0xE000` to `0x10FFFF`) and `None` otherwise.
#[verifier::external_body]
fn char_from_u32(n: u32) -> (r: Option<char>)
    ensures
        is_scalar(n) ==> r == Some(n as char),
        !is_scalar(n) ==> r is None,
{
    char::from_u32(n)
}

/// The value of a hexadecimal digit character, if it is one.
fn hex_digit_exec(c: char) -> (r: Option<u32>)
    ensures
        match hex_digit(c) {
            Some(v) => r == Some(v as u32),
            None => r is None,
        },
{
    if '0' <= c && c <= '9' {
        Some(c as u32 - '0' as u32)
    } else if 'a' <= c && c <= 'f' {
        Some(c as u32 - 'a' as u32 + 10)
    } else if 'A' <= c && c <= 'F' {
        Some(c as u32 - 'A' as u32 + 10)
    } else {
        None
    }
}

/// A prefix of hexadecimal digits has a value no larger than the whole,
/// and a prefix that is not all digits spoils the whole.
proof fn lemma_hex_value_prefix(d: Seq<char>, k: int)
    requires
        0 <= k <= d.len(),
    ensures
        hex_value(d.take(k)) is None ==> hex_value(d) is None,
        hex_value(d) matches Some(v) ==> hex_value(d.take(k)) matches Some(w) && w <= v,
    decreases d.len(),
{
    if k < d.len() {
        lemma_hex_value_prefix(d.drop_last(), k);
        assert(d.drop_last().take(k) =~= d.take(k));
        if let Some(v) = hex_value(d) {
            let h = hex_value(d.drop_last())->0;
            assert(v == h * 16 + hex_digit(d.last())->0);
        }
    } else {
        assert(d.take(k) =~= d);
    }
}

/// Parse `s[from..to]` as a hexadecimal number (see `parse_hex`).
fn parse_hex_exec(s: &Vec<char>, from: usize, to: usize) -> (r: Option<u32>)
    requires
        from <= to <= s@.len(),
    ensures
        r == parse_hex(s@.subrange(from as int, to as int)),
{
    let ghost full = s@.subrange(from as int, to as int);
    let mut start = from;
    if from < to && s[from] == '+' {
        start = from + 1;
    }
    let ghost d = s@.subrange(start as int, to as int);
    proof {
        if from < to && s@[from as int] == '+' {
            assert(full.drop_first() =~= d);
        } else {
            assert(full =~= d);
        }
    }
    if start == to {
        return None;
    }
    let mut acc: u32 = 0;
    let mut i = start;
    while i < to
        invariant
            start <= i <= to <= s@.len(),
            d == s@.subrange(start as int, to as int),
            hex_value(s@.subrange(start as int, i as int)) == Some(acc as nat),
            parse_hex(s@.subrange(from as int, to as int)) == (match hex_value(d) {
                Some(v) => if v <= u32::MAX { Some(v as u32) } else { None },
                None => None,
            }),
        decreases to - i,
    {
        let ghost pre = s@.subrange(start as int, i as int);
        let ghost next = s@.subrange(start as int, i + 1);
        proof {
            assert(next.drop_last() =~= pre);
            assert(next.last() == s@[i as int]);
        }
        match hex_digit_exec(s[i]) {
            None => {
                proof {
                    assert(d.take(i - start + 1) =~= next);
                    lemma_hex_value_prefix(d, i - start + 1);
                }
                return None;
            },
            Some(v) => {
                if acc > 0x0FFF_FFFF {
                    proof {
                        assert(hex_value(next) == Some((acc * 16 + v) as nat));
                        assert(d.take(i - start + 1) =~= next);
                        lemma_hex_value_prefix(d, i - start + 1);
                    }
                    return None;
                }
                acc = acc * 16 + v;
            },
        }
        i = i + 1;
    }
    proof {
        assert(s@.subrange(start as int, i as int) =~= d);
    }
    Some(acc)
}

} // verus!

verus! {

/// The characters of `raw`, in order.
fn chars_of(raw: &str) -> (v: Vec<char>)
    ensures
        v@ == raw@,
{
    broadcast use vstd::string::axiom_spec_iter;
    let mut out: Vec<char> = Vec::new();
    for c in iter: raw.chars()
        invariant
            iter.seq() == raw@,
            out@ == iter.seq().take(iter.index() as int),
    {
        out.push(c);
    }
    out
}

/// The character of a numeric escape with digits `s[from..to]` (see
/// `code_char`).
fn code_char_exec(s: &Vec<char>, from: usize, to: usize) -> (c: char)
    requires
        from <= to <= s@.len(),
    ensures
        c == code_char(s@.subrange(from as int, to as int)),
{
    let n: u32 = match parse_hex_exec(s, from, to) {
        Some(v) => v,
        None => 0,
    };
    match char_from_u32(n) {
        Some(c) => c,
        None => '\0',
    }
}

/// Decode the escape sequence whose letter is at `i`, just past the
/// backslash: the character it denotes and the position after it (see
/// `escape_spec`).
pub fn decode_escape(s: &Vec<char>, i: usize) -> (r: (char, usize))
    requires
        i <= s@.len(),
    ensures
        r.0 == escape_spec(s@, i as int).0,
        r.1 == escape_spec(s@, i as int).1,
{
    let n = s.len();
    if i >= n {
        return ('\0', i);
    }
    let c = s[i];
    if c == 'n' {
        ('\n', i + 1)
    } else if c == 't' {
        ('\t', i + 1)
    } else if c == 'r' {
        ('\r', i + 1)
    } else if c == '0' {
        ('\0', i + 1)
    } else if c == 'a' {
        ('\x07', i + 1)
    } else if c == 'b' {
        ('\x08', i + 1)
    } else if c == 'f' {
        ('\x0c', i + 1)
    } else if c == 'v' {
        ('\x0b', i + 1)
    } else if c == 'x' {
        let end = if n - i >= 3 { i + 3 } else { n };
        (code_char_exec(s, i + 1, end), end)
    } else if c == 'u' {
        let j = if n - i >= 2 { i + 2 } else { n };
        let mut k = j;
        proof {
            lemma_close_brace(s@, j as int);
        }
        while k < n && s[k] != '}'
            invariant
                j <= k <= n == s@.len(),
                close_brace(s@, j as int) == close_brace(s@, k as int),
            decreases n - k,
        {
            k = k + 1;
        }
        let next = if k < n { k + 1 } else { n };
        (code_char_exec(s, j, k), next)
    } else {
        (c, i + 1)
    }
}

/// Decode a single-quoted char literal, quotes included: the first
/// character between the quotes, with an escape sequence resolved (see
/// `escape_spec`), or `'\0'` when there is none.
pub fn decode_char_literal(raw: &str) -> (c: char)
    requires
        is_quoted_literal(raw@),
    ensures
        c == (if quoted_inner(raw@).len() == 0 {
            '\0'
        } else if quoted_inner(raw@)[0] == '\\' {
            escape_spec(quoted_inner(raw@), 1).0
        } else {
            quoted_inner(raw@)[0]
        }),
{
    let all = chars_of(raw);
    let inner = slice_chars(&all, 1, all.len() - 1);
    if inner.len() == 0 {
        '\0'
    } else if inner[0] == '\\' {
        decode_escape(&inner, 1).0
    } else {
        inner[0]
    }
}

/// Decode a double-quoted string literal, quotes included, resolving its
/// escape sequences (see `decode_from`).
pub fn decode_string_literal(raw: &str) -> (r: String)
    requires
        is_quoted_literal(raw@),
    ensures
        r@ == decode_from(quoted_inner(raw@), 0),
{
    let all = chars_of(raw);
    let inner = slice_chars(&all, 1, all.len() - 1);
    let ghost t = inner@;
    let mut out = String::new();
    let mut i: usize = 0;
    let n = inner.len();
    while i < n
        invariant
            n == t.len(),
            inner@ == t,
            i <= n,
            out@ + decode_from(t, i as int) == decode_from(t, 0),
        decreases n - i,
    {
        let ghost before = out@;
        let c = inner[i];
        if c == '\\' {
            if i + 1 < n {
                let (d, next) = decode_escape(&inner, i + 1);
                proof {
                    lemma_escape_advances(t, i + 1);
                }
                push_char(&mut out, d);
                proof {
                    assert(decode_from(t, i as int) == seq![d] + decode_from(t, next as int));
                    assert(before + decode_from(t, i as int) =~= out@ + decode_from(t, next as int));
                }
                i = next;
            } else {
                push_char(&mut out, '\0');
                proof {
                    assert(decode_from(t, i as int) == seq!['\0']);
                    assert(decode_from(t, n as int) =~= Seq::<char>::empty());
                    assert(before + decode_from(t, i as int) =~= out@ + decode_from(t, n as int));
                }
                i = n;
            }
        } else {
            push_char(&mut out, c);
            proof {
                assert(before + decode_from(t, i as int) =~= out@ + decode_from(t, i + 1));
            }
            i = i + 1;
        }
    }
    proof {
        assert(decode_from(t, i as int) =~= Seq::<char>::empty());
        assert(out@ =~= out@ + decode_from(t, i as int));
    }
    out
}

/// The characters `v[from..to]`.
fn slice_chars(v: &Vec<char>, from: usize, to: usize) -> (r: Vec<char>)
    requires
        from <= to <= v@.len(),
    ensures
        r@ == v@.subrange(from as int, to as int),
{
    let mut out: Vec<char> = Vec::new();
    let mut i = from;
    while i < to
        invariant
            from <= i <= to <= v@.len(),
            out@ == v@.subrange(from as int, i as int),
        decreases to - i,
    {
        out.push(v[i]);
        proof {
            assert(out@ =~= v@.subrange(from as int, i + 1));
        }
        i = i + 1;
    }
    out
}

} // verus!
