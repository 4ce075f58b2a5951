//! Renders JSON exactly as Python's `json.dumps` does.
//!
//! Python's default separators are `", "` and `": "`, keys keep insertion order, and floats use
//! Python's `repr`. With `ensure_ascii=True` every character from U+007F up becomes a `\uXXXX`
//! escape (a surrogate pair above the BMP); with `ensure_ascii=False` it is written as-is.

use vstd::prelude::*;
use crate::ascii::{is_ascii_text, lemma_dump_ascii};
use crate::json::{
    float_decimal, floats_decimal, floats_decimal_items, floats_decimal_members, FloatClass,
    FloatRepr, JsonNumber, JsonValue, MAX_FLOAT_EXPONENT,
};
use crate::text::{category_of, general_category, push_chars, push_str, str_eq, string_of};

verus! {

// ---------------------------------------------------------------------------------------------
// Numbers.
// ---------------------------------------------------------------------------------------------

pub open spec fn digit_char(d: nat) -> char {
    ((48 + d) as u32) as char
}

/// Decimal digits of `n`, most significant first, without leading zeros.
pub open spec fn decimal(n: nat) -> Seq<char>
    decreases n,
{
    if n < 10 {
        seq![digit_char(n)]
    } else {
        decimal(n / 10).push(digit_char(n % 10))
    }
}

/// `n` in decimal with a leading `-` when negative.
pub open spec fn int_text(n: int) -> Seq<char> {
    if n < 0 {
        seq!['-'] + decimal((-n) as nat)
    } else {
        decimal(n as nat)
    }
}

fn digit(d: u64) -> (c: char)
    requires
        d < 10,
    ensures
        c == digit_char(d as nat),
{
    let b: u8 = (48 + d) as u8;
    b as char
}

/// Appends the decimal digits of `n`.
pub fn push_decimal(out: &mut Vec<char>, n: u64)
    ensures
        final(out)@ == old(out)@ + decimal(n as nat),
    decreases n,
{
    if n < 10 {
        out.push(digit(n));
    } else {
        push_decimal(out, n / 10);
        out.push(digit(n % 10));
    }
}

/// Appends `n` in decimal, with a `-` when negative.
pub fn push_int(out: &mut Vec<char>, n: i64)
    ensures
        final(out)@ == old(out)@ + int_text(n as int),
{
    if n < 0 {
        out.push('-');
        let m: u64 = ((-(n + 1)) as u64) + 1;
        assert(m == -(n as int));
        push_decimal(out, m);
    } else {
        push_decimal(out, n as u64);
    }
}

/// Lowercase hexadecimal digit.
pub open spec fn hex_digit(d: nat) -> char {
    if d < 10 {
        digit_char(d)
    } else {
        ((87 + d) as u32) as char
    }
}

/// Four lowercase hexadecimal digits of `n` (which is below 0x10000).
pub open spec fn hex4(n: nat) -> Seq<char> {
    seq![
        hex_digit((n / 4096) % 16),
        hex_digit((n / 256) % 16),
        hex_digit((n / 16) % 16),
        hex_digit(n % 16),
    ]
}

/// Two lowercase hexadecimal digits of `n` (which is below 0x100).
pub open spec fn hex2(n: nat) -> Seq<char> {
    seq![hex_digit((n / 16) % 16), hex_digit(n % 16)]
}

fn hex(d: u32) -> (c: char)
    requires
        d < 16,
    ensures
        c == hex_digit(d as nat),
{
    if d < 10 {
        let b: u8 = (48 + d) as u8;
        b as char
    } else {
        let b: u8 = (87 + d) as u8;
        b as char
    }
}

/// Eight lowercase hexadecimal digits of `n`.
pub open spec fn hex8(n: nat) -> Seq<char> {
    hex4(n / 65536) + hex4(n % 65536)
}

fn push_hex8(out: &mut Vec<char>, n: u32)
    ensures
        final(out)@ == old(out)@ + hex8(n as nat),
{
    let ghost start = out@;
    push_hex4(out, n / 65536);
    push_hex4(out, n % 65536);
    assert(out@ =~= start + hex8(n as nat));
}

fn push_hex4(out: &mut Vec<char>, n: u32)
    requires
        n < 0x10000,
    ensures
        final(out)@ == old(out)@ + hex4(n as nat),
{
    let ghost start = out@;
    out.push(hex((n / 4096) % 16));
    out.push(hex((n / 256) % 16));
    out.push(hex((n / 16) % 16));
    out.push(hex(n % 16));
    assert(out@ =~= start + hex4(n as nat));
}

fn push_hex2(out: &mut Vec<char>, n: u32)
    requires
        n < 0x100,
    ensures
        final(out)@ == old(out)@ + hex2(n as nat),
{
    let ghost start = out@;
    out.push(hex((n / 16) % 16));
    out.push(hex(n % 16));
    assert(out@ =~= start + hex2(n as nat));
}

// ---------------------------------------------------------------------------------------------
// Floats: Python `float.__repr__` from the shortest round-trip digits.
// ---------------------------------------------------------------------------------------------

pub open spec fn zeros(n: nat) -> Seq<char> {
    Seq::new(n, |i: int| '0')
}

/// At least two decimal digits of `n`.
pub open spec fn two_digits(n: nat) -> Seq<char> {
    if n < 10 {
        seq!['0', digit_char(n)]
    } else {
        decimal(n)
    }
}

/// Python's `repr` of `d[0].d[1..] × 10^exponent`: fixed notation when the decimal point lands
/// within (-4, 16] of the digits, otherwise `d.ddde±XX` with a sign and at least two exponent
/// digits.
pub open spec fn float_body(digits: Seq<char>, exponent: int) -> Seq<char> {
    let decpt = exponent + 1;
    if -4 < decpt && decpt <= 16 {
        if decpt <= 0 {
            seq!['0', '.'] + zeros((-decpt) as nat) + digits
        } else if decpt >= digits.len() {
            digits + zeros((decpt - digits.len()) as nat) + seq!['.', '0']
        } else {
            digits.take(decpt) + seq!['.'] + digits.skip(decpt)
        }
    } else {
        seq![digits[0]] + (if digits.len() > 1 {
            seq!['.'] + digits.skip(1)
        } else {
            Seq::empty()
        }) + seq!['e', if exponent < 0 {
            '-'
        } else {
            '+'
        }] + two_digits(if exponent < 0 {
            (-exponent) as nat
        } else {
            exponent as nat
        })
    }
}

pub open spec fn float_text(f: FloatRepr) -> Seq<char> {
    match f.class_spec() {
        FloatClass::NaN => seq!['N', 'a', 'N'],
        FloatClass::Infinite => if f.negative_spec() {
            seq!['-', 'I', 'n', 'f', 'i', 'n', 'i', 't', 'y']
        } else {
            seq!['I', 'n', 'f', 'i', 'n', 'i', 't', 'y']
        },
        FloatClass::Finite => (if f.negative_spec() {
            seq!['-']
        } else {
            Seq::empty()
        }) + float_body(f.digits_spec(), f.exponent_spec()),
    }
}

fn push_zeros(out: &mut Vec<char>, n: usize)
    ensures
        final(out)@ == old(out)@ + zeros(n as nat),
{
    let ghost start = out@;
    let mut i: usize = 0;
    while i < n
        invariant
            i <= n,
            out@ == start + zeros(i as nat),
        decreases n - i,
    {
        out.push('0');
        i += 1;
        assert(out@ =~= start + zeros(i as nat));
    }
}

/// Appends `digits[from..to]`.
fn push_slice(out: &mut Vec<char>, digits: &Vec<char>, from: usize, to: usize)
    requires
        from <= to <= digits.len(),
    ensures
        final(out)@ == old(out)@ + digits@.subrange(from as int, to as int),
{
    crate::text::push_range(out, digits.as_slice(), from, to);
}

/// Appends Python's `repr` of the float `f`.
pub fn push_float(out: &mut Vec<char>, f: &FloatRepr)
    ensures
        final(out)@ == old(out)@ + float_text(*f),
        float_decimal(*f),
{
    let ghost start = out@;
    let _ = f.digits();
    match f.class() {
        FloatClass::NaN => {
            out.push('N');
            out.push('a');
            out.push('N');
            assert(out@ =~= start + float_text(*f));
        },
        FloatClass::Infinite => {
            if f.is_negative() {
                out.push('-');
            }
            let ghost mid = out@;
            out.push('I');
            out.push('n');
            out.push('f');
            out.push('i');
            out.push('n');
            out.push('i');
            out.push('t');
            out.push('y');
            assert(out@ =~= start + float_text(*f));
        },
        FloatClass::Finite => {
            if f.is_negative() {
                out.push('-');
            }
            let ghost mid = out@;
            push_float_body(out, f.digits(), f.exponent());
            assert(out@ =~= start + float_text(*f));
        },
    }
}

fn push_float_body(out: &mut Vec<char>, digits: &Vec<char>, exponent: i32)
    requires
        digits@.len() >= 1,
        -MAX_FLOAT_EXPONENT <= exponent <= MAX_FLOAT_EXPONENT,
    ensures
        final(out)@ == old(out)@ + float_body(digits@, exponent as int),
{
    let ghost start = out@;
    let decpt: i32 = exponent + 1;
    let len = digits.len();
    if -4 < decpt && decpt <= 16 {
        if decpt <= 0 {
            out.push('0');
            out.push('.');
            push_zeros(out, (-decpt) as usize);
            push_chars(out, digits.as_slice());
        } else if decpt as usize >= len {
            push_chars(out, digits.as_slice());
            push_zeros(out, decpt as usize - len);
            out.push('.');
            out.push('0');
        } else {
            push_slice(out, digits, 0, decpt as usize);
            out.push('.');
            push_slice(out, digits, decpt as usize, len);
            assert(digits@.subrange(0, decpt as int) =~= digits@.take(decpt as int));
            assert(digits@.subrange(decpt as int, len as int) =~= digits@.skip(decpt as int));
        }
    } else {
        out.push(digits[0]);
        if len > 1 {
            out.push('.');
            push_slice(out, digits, 1, len);
            assert(digits@.subrange(1, len as int) =~= digits@.skip(1));
        }
        out.push('e');
        out.push(if exponent < 0 { '-' } else { '+' });
        let e: u64 = if exponent < 0 { (-exponent) as u64 } else { exponent as u64 };
        if e < 10 {
            out.push('0');
            out.push(digit(e));
        } else {
            push_decimal(out, e);
        }
    }
    assert(out@ =~= start + float_body(digits@, exponent as int));
}

pub open spec fn number_text(n: JsonNumber) -> Seq<char> {
    match n {
        JsonNumber::PosInt(u) => decimal(u as nat),
        JsonNumber::NegInt(i) => int_text(i as int),
        JsonNumber::Float(f) => float_text(f),
    }
}

pub fn push_number(out: &mut Vec<char>, n: &JsonNumber)
    ensures
        final(out)@ == old(out)@ + number_text(*n),
        *n matches JsonNumber::Float(f) ==> float_decimal(f),
{
    match n {
        JsonNumber::PosInt(u) => push_decimal(out, *u),
        JsonNumber::NegInt(i) => push_int(out, *i),
        JsonNumber::Float(f) => push_float(out, f),
    }
}

// ---------------------------------------------------------------------------------------------
// Strings.
// ---------------------------------------------------------------------------------------------

/// `\uXXXX` escapes of the UTF-16 code units of `c`.
pub open spec fn utf16_escape(c: char) -> Seq<char> {
    let v = c as nat;
    if v < 0x10000 {
        seq!['\\', 'u'] + hex4(v)
    } else {
        let w = (v - 0x10000) as nat;
        seq!['\\', 'u'] + hex4(0xD800 + w / 1024) + seq!['\\', 'u'] + hex4(0xDC00 + w % 1024)
    }
}

/// How `json.dumps` writes one character of a string.
pub open spec fn json_escape_char(c: char, ensure_ascii: bool) -> Seq<char> {
    if c == '"' {
        seq!['\\', '"']
    } else if c == '\\' {
        seq!['\\', '\\']
    } else if c == '\n' {
        seq!['\\', 'n']
    } else if c == '\r' {
        seq!['\\', 'r']
    } else if c == '\t' {
        seq!['\\', 't']
    } else if c == '\x08' {
        seq!['\\', 'b']
    } else if c == '\x0C' {
        seq!['\\', 'f']
    } else if (c as u32) < 0x20 {
        seq!['\\', 'u'] + hex4(c as nat)
    } else if ensure_ascii && (c as u32) >= 0x7f {
        utf16_escape(c)
    } else {
        seq![c]
    }
}

pub open spec fn escape_chars(s: Seq<char>, ensure_ascii: bool) -> Seq<char>
    decreases s.len(),
{
    if s.len() == 0 {
        Seq::empty()
    } else {
        escape_chars(s.drop_last(), ensure_ascii) + json_escape_char(s.last(), ensure_ascii)
    }
}

/// A JSON string literal for `s`.
pub open spec fn json_string(s: Seq<char>, ensure_ascii: bool) -> Seq<char> {
    seq!['"'] + escape_chars(s, ensure_ascii) + seq!['"']
}

fn push_escaped_char(out: &mut Vec<char>, c: char, ensure_ascii: bool)
    ensures
        final(out)@ == old(out)@ + json_escape_char(c, ensure_ascii),
{
    let ghost start = out@;
    let code: u32 = c as u32;
    if c == '"' {
        out.push('\\');
        out.push('"');
    } else if c == '\\' {
        out.push('\\');
        out.push('\\');
    } else if c == '\n' {
        out.push('\\');
        out.push('n');
    } else if c == '\r' {
        out.push('\\');
        out.push('r');
    } else if c == '\t' {
        out.push('\\');
        out.push('t');
    } else if c == '\x08' {
        out.push('\\');
        out.push('b');
    } else if c == '\x0C' {
        out.push('\\');
        out.push('f');
    } else if code < 0x20 {
        out.push('\\');
        out.push('u');
        push_hex4(out, code);
    } else if ensure_ascii && code >= 0x7f {
        out.push('\\');
        out.push('u');
        if code < 0x10000 {
            push_hex4(out, code);
        } else {
            let w: u32 = code - 0x10000;
            assert(code <= 0x10FFFF);
            push_hex4(out, 0xD800 + w / 1024);
            out.push('\\');
            out.push('u');
            push_hex4(out, 0xDC00 + w % 1024);
        }
    } else {
        out.push(c);
    }
    assert(out@ =~= start + json_escape_char(c, ensure_ascii));
}

/// Appends the JSON string literal for `s`.
pub fn push_json_string(out: &mut Vec<char>, s: &[char], ensure_ascii: bool)
    ensures
        final(out)@ == old(out)@ + json_string(s@, ensure_ascii),
{
    let ghost start = out@;
    out.push('"');
    let mut i: usize = 0;
    while i < s.len()
        invariant
            i <= s.len(),
            out@ == start + seq!['"'] + escape_chars(s@.subrange(0, i as int), ensure_ascii),
        decreases s.len() - i,
    {
        push_escaped_char(out, s[i], ensure_ascii);
        proof {
            let next = s@.subrange(0, i + 1);
            assert(next.drop_last() =~= s@.subrange(0, i as int));
        }
        i += 1;
    }
    out.push('"');
    assert(s@.subrange(0, s.len() as int) =~= s@);
    assert(out@ =~= start + json_string(s@, ensure_ascii));
}

// ---------------------------------------------------------------------------------------------
// Values.
// ---------------------------------------------------------------------------------------------

/// `json.dumps(value, ensure_ascii=ensure_ascii)`.
pub open spec fn dump_value(v: JsonValue, ensure_ascii: bool) -> Seq<char>
    decreases v,
{
    match v {
        JsonValue::Null => seq!['n', 'u', 'l', 'l'],
        JsonValue::Bool(b) => if b {
            seq!['t', 'r', 'u', 'e']
        } else {
            seq!['f', 'a', 'l', 's', 'e']
        },
        JsonValue::Number(n) => number_text(n),
        JsonValue::String(s) => json_string(s@, ensure_ascii),
        JsonValue::Array(items) => seq!['['] + dump_items(items@, ensure_ascii) + seq![']'],
        JsonValue::Object(members) => seq!['{'] + dump_members(members@, ensure_ascii) + seq![
            '}',
        ],
    }
}

/// Array elements separated by `", "`.
pub open spec fn dump_items(items: Seq<JsonValue>, ensure_ascii: bool) -> Seq<char>
    decreases items,
{
    if items.len() == 0 {
        Seq::empty()
    } else if items.len() == 1 {
        dump_value(items[0], ensure_ascii)
    } else {
        dump_items(items.drop_last(), ensure_ascii) + seq![',', ' '] + dump_value(
            items.last(),
            ensure_ascii,
        )
    }
}

/// Object members `"key": value` separated by `", "`.
pub open spec fn dump_members(members: Seq<(String, JsonValue)>, ensure_ascii: bool) -> Seq<
    char,
>
    decreases members,
{
    if members.len() == 0 {
        Seq::empty()
    } else if members.len() == 1 {
        json_string(members[0].0@, ensure_ascii) + seq![':', ' '] + dump_value(
            members[0].1,
            ensure_ascii,
        )
    } else {
        dump_members(members.drop_last(), ensure_ascii) + seq![',', ' '] + json_string(
            members.last().0@,
            ensure_ascii,
        ) + seq![':', ' '] + dump_value(members.last().1, ensure_ascii)
    }
}

/// Appends `json.dumps(v)`.
pub fn write_value(out: &mut Vec<char>, v: &JsonValue, ensure_ascii: bool)
    ensures
        final(out)@ == old(out)@ + dump_value(*v, ensure_ascii),
        floats_decimal(*v),
    decreases v, 1nat,
{
    let ghost start = out@;
    match v {
        JsonValue::Null => {
            push_str(out, "null");
            proof {
                reveal_strlit("null");
            }
        },
        JsonValue::Bool(b) => {
            if *b {
                push_str(out, "true");
                proof {
                    reveal_strlit("true");
                }
            } else {
                push_str(out, "false");
                proof {
                    reveal_strlit("false");
                }
            }
        },
        JsonValue::Number(n) => push_number(out, n),
        JsonValue::String(s) => {
            let cs = crate::text::chars_of(s.as_str());
            push_json_string(out, &cs, ensure_ascii);
        },
        JsonValue::Array(items) => {
            out.push('[');
            write_items(out, items, ensure_ascii);
            out.push(']');
        },
        JsonValue::Object(members) => {
            out.push('{');
            write_members(out, members, ensure_ascii);
            out.push('}');
        },
    }
    assert(out@ =~= start + dump_value(*v, ensure_ascii));
}

/// Appends the elements of an array, separated by `", "`.
fn write_items(out: &mut Vec<char>, items: &Vec<JsonValue>, ensure_ascii: bool)
    ensures
        final(out)@ == old(out)@ + dump_items(items@, ensure_ascii),
        floats_decimal_items(items@),
    decreases items, 0nat,
{
    let ghost start = out@;
    let mut i: usize = 0;
    while i < items.len()
        invariant
            i <= items.len(),
            out@ == start + dump_items(items@.subrange(0, i as int), ensure_ascii),
            floats_decimal_items(items@.subrange(0, i as int)),
        decreases items.len() - i,
    {
        if i > 0 {
            out.push(',');
            out.push(' ');
        }
        proof {
            vstd::std_specs::vec::axiom_vec_index_decreases(*items, i as int);
        }
        write_value(out, &items[i], ensure_ascii);
        proof {
            let next = items@.subrange(0, i + 1);
            assert(next.drop_last() =~= items@.subrange(0, i as int));
        }
        i += 1;
    }
    assert(items@.subrange(0, items.len() as int) =~= items@);
}

/// Appends the members of an object, separated by `", "`.
fn write_members(out: &mut Vec<char>, members: &Vec<(String, JsonValue)>, ensure_ascii: bool)
    ensures
        final(out)@ == old(out)@ + dump_members(members@, ensure_ascii),
        floats_decimal_members(members@),
    decreases members, 0nat,
{
    let ghost start = out@;
    let mut i: usize = 0;
    while i < members.len()
        invariant
            i <= members.len(),
            out@ == start + dump_members(members@.subrange(0, i as int), ensure_ascii),
            floats_decimal_members(members@.subrange(0, i as int)),
        decreases members.len() - i,
    {
        let ghost prefix = members@.subrange(0, i as int);
        let ghost next = members@.subrange(0, i + 1);
        let ghost m = members@[i as int];
        if i > 0 {
            out.push(',');
            out.push(' ');
        }
        let ghost sep = out@;
        let key = crate::text::chars_of(members[i].0.as_str());
        push_json_string(out, &key, ensure_ascii);
        out.push(':');
        out.push(' ');
        proof {
            vstd::std_specs::vec::axiom_vec_index_decreases(*members, i as int);
        }
        write_value(out, &members[i].1, ensure_ascii);
        proof {
            assert(next.drop_last() =~= prefix);
            assert(next.last() == m);
            assert(out@ == sep + json_string(m.0@, ensure_ascii) + seq![':', ' '] + dump_value(
                m.1,
                ensure_ascii,
            ));
            if i == 0 {
                assert(next.len() == 1);
                assert(next[0] == m);
                assert(sep == start);
            } else {
                assert(sep == start + dump_members(prefix, ensure_ascii) + seq![',', ' ']);
            }
            assert(out@ =~= start + dump_members(next, ensure_ascii));
        }
        i += 1;
    }
    assert(members@.subrange(0, members.len() as int) =~= members@);
}

/// `json.dumps(value, ensure_ascii=ensure_ascii)`; with `ensure_ascii` the text is pure ASCII.
pub fn dumps(value: &JsonValue, ensure_ascii: bool) -> (r: String)
    ensures
        r@ == dump_value(*value, ensure_ascii),
        ensure_ascii ==> is_ascii_text(r@),
{
    let mut out: Vec<char> = Vec::new();
    write_value(&mut out, value, ensure_ascii);
    assert(out@ =~= dump_value(*value, ensure_ascii));
    proof {
        if ensure_ascii {
            lemma_dump_ascii(*value);
        }
    }
    string_of(&out)
}

/// Python's `repr` of the float `f`, appended to `out`.
pub fn write_float(out: &mut String, f: &FloatRepr)
    ensures
        final(out)@ == old(out)@ + float_text(*f),
{
    let mut cs: Vec<char> = Vec::new();
    push_float(&mut cs, f);
    let text = string_of(&cs);
    out.append(text.as_str());
    assert(cs@ =~= float_text(*f));
}

// ---------------------------------------------------------------------------------------------
// Python `repr(str)`.
// ---------------------------------------------------------------------------------------------

/// The quote Python's `repr` picks: a double quote when the text holds a single quote and no
/// double quote, otherwise a single quote.
pub open spec fn repr_quote(s: Seq<char>) -> char {
    if s.contains('\'') && !s.contains('"') {
        '"'
    } else {
        '\''
    }
}

/// The general categories whose characters Python does not print as they are: controls,
/// format characters, surrogates, private use, unassigned code points and separators.
pub open spec fn hidden_category(g: Seq<char>) -> bool {
    g == "Cc"@ || g == "Cf"@ || g == "Cs"@ || g == "Co"@ || g == "Cn"@ || g == "Zl"@ || g
        == "Zp"@ || g == "Zs"@
}

/// Whether Python's `repr` escapes the character `c`: the ASCII controls, and every character
/// from U+0080 up in a hidden category.
pub open spec fn repr_hidden(c: char) -> bool {
    (c as u32) < 0x20 || (c as u32) == 0x7f || ((c as u32) >= 0x80 && hidden_category(
        general_category(c),
    ))
}

/// Python's escape of a code point: `\xNN` below U+0100, `\uNNNN` below U+10000, else
/// `\UNNNNNNNN`.
pub open spec fn repr_escape_code(v: nat) -> Seq<char> {
    if v < 0x100 {
        seq!['\\', 'x'] + hex2(v)
    } else if v < 0x10000 {
        seq!['\\', 'u'] + hex4(v)
    } else {
        seq!['\\', 'U'] + hex8(v)
    }
}

/// How `repr` writes one character inside quotes `q`.
pub open spec fn repr_escape_char(c: char, q: char) -> Seq<char> {
    if c == '\\' {
        seq!['\\', '\\']
    } else if c == '\n' {
        seq!['\\', 'n']
    } else if c == '\r' {
        seq!['\\', 'r']
    } else if c == '\t' {
        seq!['\\', 't']
    } else if c == q {
        seq!['\\', c]
    } else if repr_hidden(c) {
        repr_escape_code(c as nat)
    } else {
        seq![c]
    }
}

/// Whether `repr` escapes `c` (see [`repr_hidden`]).
fn is_repr_hidden(c: char) -> (r: bool)
    ensures
        r == repr_hidden(c),
{
    let code: u32 = c as u32;
    if code < 0x20 || code == 0x7f {
        return true;
    }
    if code < 0x80 {
        return false;
    }
    let g = category_of(c);
    str_eq(g, "Cc") || str_eq(g, "Cf") || str_eq(g, "Cs") || str_eq(g, "Co") || str_eq(g, "Cn")
        || str_eq(g, "Zl") || str_eq(g, "Zp") || str_eq(g, "Zs")
}

pub open spec fn repr_escape(s: Seq<char>, q: char) -> Seq<char>
    decreases s.len(),
{
    if s.len() == 0 {
        Seq::empty()
    } else {
        repr_escape(s.drop_last(), q) + repr_escape_char(s.last(), q)
    }
}

/// Python `repr(s)` for a string.
pub open spec fn repr_spec(s: Seq<char>) -> Seq<char> {
    let q = repr_quote(s);
    seq![q] + repr_escape(s, q) + seq![q]
}

fn push_repr_char(out: &mut Vec<char>, c: char, q: char)
    ensures
        final(out)@ == old(out)@ + repr_escape_char(c, q),
{
    let ghost start = out@;
    let code: u32 = c as u32;
    if c == '\\' {
        out.push('\\');
        out.push('\\');
    } else if c == '\n' {
        out.push('\\');
        out.push('n');
    } else if c == '\r' {
        out.push('\\');
        out.push('r');
    } else if c == '\t' {
        out.push('\\');
        out.push('t');
    } else if c == q {
        out.push('\\');
        out.push(c);
    } else if is_repr_hidden(c) {
        out.push('\\');
        if code < 0x100 {
            out.push('x');
            push_hex2(out, code);
        } else if code < 0x10000 {
            out.push('u');
            push_hex4(out, code);
        } else {
            out.push('U');
            push_hex8(out, code);
        }
    } else {
        out.push(c);
    }
    assert(out@ =~= start + repr_escape_char(c, q));
}

/// Appends Python `repr(s)` for the characters `s`.
pub fn push_repr(out: &mut Vec<char>, s: &[char])
    ensures
        final(out)@ == old(out)@ + repr_spec(s@),
{
    let ghost start = out@;
    let q = if crate::text::contains_char(s, '\'') && !crate::text::contains_char(s, '"') {
        '"'
    } else {
        '\''
    };
    out.push(q);
    let mut i: usize = 0;
    while i < s.len()
        invariant
            i <= s.len(),
            q == repr_quote(s@),
            out@ == start + seq![q] + repr_escape(s@.subrange(0, i as int), q),
        decreases s.len() - i,
    {
        push_repr_char(out, s[i], q);
        proof {
            let next = s@.subrange(0, i + 1);
            assert(next.drop_last() =~= s@.subrange(0, i as int));
        }
        i += 1;
    }
    out.push(q);
    assert(s@.subrange(0, s.len() as int) =~= s@);
    assert(out@ =~= start + repr_spec(s@));
}

/// Python `repr(str)`: single-quoted unless the text contains a single quote and no double
/// quote; backslashes, the quote, and every character Python does not print (controls,
/// format characters, separators other than the space, unassigned code points) are escaped.
pub fn repr_str(s: &str) -> (r: String)
    ensures
        r@ == repr_spec(s@),
{
    let cs = crate::text::chars_of(s);
    let mut out: Vec<char> = Vec::new();
    push_repr(&mut out, &cs);
    assert(out@ =~= repr_spec(s@));
    string_of(&out)
}


} // verus!
