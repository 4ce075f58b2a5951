//! Reading back what `json.dumps` writes for strings and integers: the decoding a JSON parser
//! applies to a string literal or an integer literal, and the proofs that it gives the value
//! back.

use vstd::prelude::*;
use crate::pyjson::{
    decimal, digit_char, escape_chars, int_text, hex4, hex_digit, json_escape_char, json_string, utf16_escape,
};

verus! {

/// The value of a hexadecimal digit, either case.
pub open spec fn hex_value(c: char) -> Option<nat> {
    if '0' <= c <= '9' {
        Some((c as u32 - 48) as nat)
    } else if 'a' <= c <= 'f' {
        Some((c as u32 - 87) as nat)
    } else if 'A' <= c <= 'F' {
        Some((c as u32 - 55) as nat)
    } else {
        None
    }
}

/// The value of four hexadecimal digits.
pub open spec fn hex4_value(s: Seq<char>) -> Option<nat> {
    if s.len() != 4 {
        None
    } else {
        match (hex_value(s[0]), hex_value(s[1]), hex_value(s[2]), hex_value(s[3])) {
            (Some(a), Some(b), Some(c), Some(d)) => Some(a * 4096 + b * 256 + c * 16 + d),
            _ => None,
        }
    }
}

/// The character that a one-letter escape `\x` stands for.
pub open spec fn simple_escape(c: char) -> Option<char> {
    if c == '"' {
        Some('"')
    } else if c == '\\' {
        Some('\\')
    } else if c == '/' {
        Some('/')
    } else if c == 'b' {
        Some('\x08')
    } else if c == 'f' {
        Some('\x0C')
    } else if c == 'n' {
        Some('\n')
    } else if c == 'r' {
        Some('\r')
    } else if c == 't' {
        Some('\t')
    } else {
        None
    }
}

/// `c` in front of the decoded rest, if the rest decodes.
pub open spec fn prepend(c: char, rest: Option<Seq<char>>) -> Option<Seq<char>> {
    match rest {
        Some(t) => Some(seq![c] + t),
        None => None,
    }
}

/// The characters that the body of a JSON string literal stands for: escapes decoded, a UTF-16
/// surrogate pair joined into one character; `None` where the body is not valid JSON (a raw
/// quote or control character, an unknown escape, a lone surrogate).
#[verifier::opaque]
pub open spec fn unescape(s: Seq<char>) -> Option<Seq<char>>
    decreases s.len(),
{
    if s.len() == 0 {
        Some(Seq::empty())
    } else if s[0] == '"' || (s[0] as u32) < 0x20 {
        None
    } else if s[0] != '\\' {
        prepend(s[0], unescape(s.skip(1)))
    } else if s.len() < 2 {
        None
    } else if s[1] != 'u' {
        match simple_escape(s[1]) {
            Some(c) => prepend(c, unescape(s.skip(2))),
            None => None,
        }
    } else if s.len() < 6 {
        None
    } else {
        match hex4_value(s.subrange(2, 6)) {
            None => None,
            Some(v) => if 0xD800 <= v < 0xDC00 {
                if s.len() >= 12 && s[6] == '\\' && s[7] == 'u' {
                    match hex4_value(s.subrange(8, 12)) {
                        Some(w) => if 0xDC00 <= w < 0xE000 {
                            prepend(
                                ((0x10000 + (v - 0xD800) * 1024 + (w - 0xDC00)) as u32) as char,
                                unescape(s.skip(12)),
                            )
                        } else {
                            None
                        },
                        None => None,
                    }
                } else {
                    None
                }
            } else if 0xDC00 <= v < 0xE000 {
                None
            } else {
                prepend((v as u32) as char, unescape(s.skip(6)))
            },
        }
    }
}

/// The string a JSON string literal stands for: the decoded text between its quotes.
pub open spec fn parse_string_literal(t: Seq<char>) -> Option<Seq<char>> {
    if t.len() >= 2 && t[0] == '"' && t.last() == '"' {
        unescape(t.subrange(1, t.len() - 1))
    } else {
        None
    }
}

proof fn lemma_hex_digit(d: nat)
    requires
        d < 16,
    ensures
        hex_value(hex_digit(d)) == Some(d),
{
    if d < 10 {
        assert(digit_char(d) as u32 == 48 + d);
    } else {
        assert(hex_digit(d) as u32 == 87 + d);
    }
}

proof fn lemma_hex4(n: nat)
    requires
        n < 0x10000,
    ensures
        hex4_value(hex4(n)) == Some(n),
{
    let a = (n / 4096) % 16;
    let b = (n / 256) % 16;
    let c = (n / 16) % 16;
    let d = n % 16;
    lemma_hex_digit(a);
    lemma_hex_digit(b);
    lemma_hex_digit(c);
    lemma_hex_digit(d);
    assert(a * 4096 + b * 256 + c * 16 + d == n) by (nonlinear_arith)
        requires
            n < 0x10000,
            a == (n / 4096) % 16,
            b == (n / 256) % 16,
            c == (n / 16) % 16,
            d == n % 16,
    ;
}

/// Escaping a string is escaping its first character, then the rest.
proof fn lemma_escape_front(s: Seq<char>, ensure_ascii: bool)
    requires
        s.len() >= 1,
    ensures
        escape_chars(s, ensure_ascii) == json_escape_char(s[0], ensure_ascii) + escape_chars(
            s.skip(1),
            ensure_ascii,
        ),
    decreases s.len(),
{
    if s.len() == 1 {
        assert(s.drop_last().len() == 0);
        assert(s.skip(1).len() == 0);
        assert(s.last() == s[0]);
        assert(escape_chars(s.drop_last(), ensure_ascii) =~= Seq::<char>::empty());
        assert(escape_chars(s.skip(1), ensure_ascii) =~= Seq::<char>::empty());
        assert(escape_chars(s, ensure_ascii) =~= json_escape_char(s[0], ensure_ascii));
        assert(json_escape_char(s[0], ensure_ascii) + escape_chars(s.skip(1), ensure_ascii)
            =~= json_escape_char(s[0], ensure_ascii));
    } else {
        let init = s.drop_last();
        lemma_escape_front(init, ensure_ascii);
        assert(init[0] == s[0]);
        assert(init.skip(1) =~= s.skip(1).drop_last());
        assert(s.skip(1).last() == s.last());
        assert(escape_chars(s, ensure_ascii) =~= json_escape_char(s[0], ensure_ascii)
            + escape_chars(s.skip(1), ensure_ascii));
    }
}

proof fn lemma_unescape_raw(c: char, t: Seq<char>)
    requires
        c != '"',
        c != '\\',
        c as u32 >= 0x20,
    ensures
        unescape(seq![c] + t) == prepend(c, unescape(t)),
{
    reveal(unescape);
    let x = seq![c] + t;
    assert(x[0] == c);
    assert(x.skip(1) =~= t);
}

proof fn lemma_unescape_simple(e: char, c: char, t: Seq<char>)
    requires
        e != 'u',
        simple_escape(e) == Some(c),
    ensures
        unescape(seq!['\\', e] + t) == prepend(c, unescape(t)),
{
    reveal(unescape);
    let x = seq!['\\', e] + t;
    assert(x[0] == '\\' && x[1] == e);
    assert(x.skip(2) =~= t);
}

proof fn lemma_unescape_unit(n: nat, t: Seq<char>)
    requires
        n < 0x10000,
        !(0xD800 <= n < 0xE000),
    ensures
        unescape(seq!['\\', 'u'] + hex4(n) + t) == prepend((n as u32) as char, unescape(t)),
{
    reveal(unescape);
    let x = seq!['\\', 'u'] + hex4(n) + t;
    lemma_hex4(n);
    assert(x[0] == '\\' && x[1] == 'u');
    assert(x.subrange(2, 6) =~= hex4(n));
    assert(x.skip(6) =~= t);
}

proof fn lemma_unescape_pair(hi: nat, lo: nat, t: Seq<char>)
    requires
        0xD800 <= hi < 0xDC00,
        0xDC00 <= lo < 0xE000,
    ensures
        unescape(seq!['\\', 'u'] + hex4(hi) + seq!['\\', 'u'] + hex4(lo) + t) == prepend(
            ((0x10000 + (hi - 0xD800) * 1024 + (lo - 0xDC00)) as u32) as char,
            unescape(t),
        ),
{
    reveal(unescape);
    let x = seq!['\\', 'u'] + hex4(hi) + seq!['\\', 'u'] + hex4(lo) + t;
    lemma_hex4(hi);
    lemma_hex4(lo);
    assert(x[0] == '\\' && x[1] == 'u');
    assert(x.subrange(2, 6) =~= hex4(hi));
    assert(x[6] == '\\' && x[7] == 'u');
    assert(x.subrange(8, 12) =~= hex4(lo));
    assert(x.skip(12) =~= t);
}

proof fn lemma_unescape_astral(c: char, t: Seq<char>)
    requires
        c as nat >= 0x10000,
    ensures
        unescape(utf16_escape(c) + t) == prepend(c, unescape(t)),
{
    let v = c as nat;
    let w = (v - 0x10000) as nat;
    let hi = (0xD800 + w / 1024) as nat;
    let lo = (0xDC00 + w % 1024) as nat;
    assert(w / 1024 < 1024 && w % 1024 < 1024) by (nonlinear_arith)
        requires
            w < 0x100000,
    ;
    assert(w == (w / 1024) * 1024 + w % 1024) by (nonlinear_arith);
    lemma_unescape_pair(hi, lo, t);
    assert(0x10000 + (hi - 0xD800) * 1024 + (lo - 0xDC00) == v);
    assert(utf16_escape(c) == seq!['\\', 'u'] + hex4(hi) + seq!['\\', 'u'] + hex4(lo));
}

/// Decoding what `json.dumps` writes for one character, in front of any text, gives the
/// character in front of what that text decodes to.
proof fn lemma_unescape_char(c: char, ensure_ascii: bool, t: Seq<char>)
    ensures
        unescape(json_escape_char(c, ensure_ascii) + t) == prepend(c, unescape(t)),
{
    let v = c as nat;
    if c == '"' {
        lemma_unescape_simple('"', c, t);
    } else if c == '\\' {
        lemma_unescape_simple('\\', c, t);
    } else if c == '\n' {
        lemma_unescape_simple('n', c, t);
    } else if c == '\r' {
        lemma_unescape_simple('r', c, t);
    } else if c == '\t' {
        lemma_unescape_simple('t', c, t);
    } else if c == '\x08' {
        lemma_unescape_simple('b', c, t);
    } else if c == '\x0C' {
        lemma_unescape_simple('f', c, t);
    } else if v < 0x20 {
        lemma_unescape_unit(v, t);
    } else if ensure_ascii && v >= 0x7f {
        if v < 0x10000 {
            lemma_unescape_unit(v, t);
        } else {
            lemma_unescape_astral(c, t);
        }
    } else {
        lemma_unescape_raw(c, t);
    }
}

/// Decoding the escaped text of a string gives the string back.
pub proof fn lemma_unescape_escaped(s: Seq<char>, ensure_ascii: bool)
    ensures
        unescape(escape_chars(s, ensure_ascii)) == Some(s),
    decreases s.len(),
{
    if s.len() > 0 {
        lemma_escape_front(s, ensure_ascii);
        lemma_unescape_escaped(s.skip(1), ensure_ascii);
        lemma_unescape_char(s[0], ensure_ascii, escape_chars(s.skip(1), ensure_ascii));
        assert(seq![s[0]] + s.skip(1) =~= s);
    } else {
        reveal(unescape);
        assert(escape_chars(s, ensure_ascii) =~= Seq::<char>::empty());
    }
}

/// A JSON parser reads back the string literal that `json.dumps` writes for a string, with or
/// without `ensure_ascii`, as the same string.
pub proof fn lemma_string_round_trip(s: Seq<char>, ensure_ascii: bool)
    ensures
        parse_string_literal(json_string(s, ensure_ascii)) == Some(s),
{
    let t = json_string(s, ensure_ascii);
    lemma_unescape_escaped(s, ensure_ascii);
    assert(t.subrange(1, t.len() - 1) =~= escape_chars(s, ensure_ascii));
}

/// The value of a run of decimal digits; `None` when it is empty or holds another character.
pub open spec fn decimal_value(s: Seq<char>) -> Option<nat>
    decreases s.len(),
{
    if s.len() == 0 || !('0' <= s.last() <= '9') {
        None
    } else if s.len() == 1 {
        Some((s.last() as u32 - 48) as nat)
    } else {
        match decimal_value(s.drop_last()) {
            Some(v) => Some(v * 10 + (s.last() as u32 - 48) as nat),
            None => None,
        }
    }
}

/// The integer a JSON integer literal stands for: digits, with a leading `-` when negative.
pub open spec fn integer_value(s: Seq<char>) -> Option<int> {
    if s.len() >= 1 && s[0] == '-' {
        match decimal_value(s.skip(1)) {
            Some(v) => Some(-v),
            None => None,
        }
    } else {
        match decimal_value(s) {
            Some(v) => Some(v as int),
            None => None,
        }
    }
}

proof fn lemma_decimal_value(n: nat)
    ensures
        decimal_value(decimal(n)) == Some(n),
        decimal(n).len() >= 1,
        decimal(n)[0] != '-',
    decreases n,
{
    if n >= 10 {
        lemma_decimal_value(n / 10);
        let d = decimal(n);
        assert(d.drop_last() =~= decimal(n / 10));
        assert(d[0] == decimal(n / 10)[0]);
        assert(digit_char(n % 10) as u32 == 48 + n % 10);
    } else {
        assert(digit_char(n) as u32 == 48 + n);
    }
}

/// A JSON parser reads back the integer literal that `json.dumps` writes for an integer as the
/// same integer.
pub proof fn lemma_integer_round_trip(n: int)
    ensures
        integer_value(int_text(n)) == Some(n),
{
    if n < 0 {
        lemma_decimal_value((-n) as nat);
        assert((seq!['-'] + decimal((-n) as nat)).skip(1) =~= decimal((-n) as nat));
    } else {
        lemma_decimal_value(n as nat);
    }
}

} // verus!
