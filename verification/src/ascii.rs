//! Output that stays ASCII: with `ensure_ascii`, `json.dumps` escapes every character from
//! U+007F up and writes numbers in ASCII digits.

use vstd::prelude::*;
use crate::json::{
    float_decimal, floats_decimal, floats_decimal_items, floats_decimal_members,
    FloatClass, JsonNumber, JsonValue,
};
use crate::pyjson::{
    decimal, digit_char, dump_items, dump_members, dump_value, escape_chars, float_body,
    hex4, hex_digit, json_escape_char, json_string, number_text, two_digits, zeros,
};

verus! {


/// Whether every character of `s` is ASCII.
pub open spec fn is_ascii_text(s: Seq<char>) -> bool {
    forall|i: int| 0 <= i < s.len() ==> (#[trigger] s[i] as u32) < 128
}

proof fn lemma_ascii_concat(a: Seq<char>, b: Seq<char>)
    requires
        is_ascii_text(a),
        is_ascii_text(b),
    ensures
        is_ascii_text(a + b),
{
    assert forall|i: int| 0 <= i < (a + b).len() implies ((#[trigger] (a + b)[i]) as u32) < 128 by {
        if i < a.len() {
            assert((a + b)[i] == a[i]);
        } else {
            assert((a + b)[i] == b[i - a.len()]);
        }
    }
}

proof fn lemma_ascii_sub(a: Seq<char>, i: int, j: int)
    requires
        is_ascii_text(a),
        0 <= i <= j <= a.len(),
    ensures
        is_ascii_text(a.subrange(i, j)),
{
    assert forall|k: int| 0 <= k < j - i implies ((#[trigger] a.subrange(i, j)[k]) as u32) < 128 by {
        assert(a.subrange(i, j)[k] == a[i + k]);
    }
}

proof fn lemma_hex4_ascii(n: nat)
    ensures
        is_ascii_text(hex4(n)),
{
    assert forall|i: int| 0 <= i < hex4(n).len() implies ((#[trigger] hex4(n)[i]) as u32) < 128 by {
        let d = if i == 0 {
            (n / 4096) % 16
        } else if i == 1 {
            (n / 256) % 16
        } else if i == 2 {
            (n / 16) % 16
        } else {
            n % 16
        };
        assert(hex4(n)[i] == hex_digit(d));
    }
}

proof fn lemma_escape_ascii(c: char)
    ensures
        is_ascii_text(json_escape_char(c, true)),
{
    lemma_hex4_ascii(c as nat);
    let v = c as nat;
    if v >= 0x10000 {
        let w = (v - 0x10000) as nat;
        lemma_hex4_ascii(0xD800 + w / 1024);
        lemma_hex4_ascii(0xDC00 + w % 1024);
        lemma_ascii_concat(seq!['\\', 'u'], hex4(0xD800 + w / 1024));
        lemma_ascii_concat(seq!['\\', 'u'] + hex4(0xD800 + w / 1024), seq!['\\', 'u']);
        lemma_ascii_concat(seq!['\\', 'u'] + hex4(0xD800 + w / 1024) + seq!['\\', 'u'], hex4(0xDC00 + w % 1024));
    } else {
        lemma_ascii_concat(seq!['\\', 'u'], hex4(v));
    }
}

/// With `ensure_ascii`, a JSON string literal is pure ASCII.
pub proof fn lemma_json_string_ascii(s: Seq<char>)
    ensures
        is_ascii_text(json_string(s, true)),
{
    lemma_escape_chars_ascii(s);
    lemma_ascii_concat(seq!['"'], escape_chars(s, true));
    lemma_ascii_concat(seq!['"'] + escape_chars(s, true), seq!['"']);
}

proof fn lemma_escape_chars_ascii(s: Seq<char>)
    ensures
        is_ascii_text(escape_chars(s, true)),
    decreases s.len(),
{
    if s.len() > 0 {
        lemma_escape_chars_ascii(s.drop_last());
        lemma_escape_ascii(s.last());
        lemma_ascii_concat(escape_chars(s.drop_last(), true), json_escape_char(s.last(), true));
    }
}

proof fn lemma_decimal_ascii(n: nat)
    ensures
        is_ascii_text(decimal(n)),
    decreases n,
{
    if n >= 10 {
        lemma_decimal_ascii(n / 10);
        lemma_ascii_concat(decimal(n / 10), seq![digit_char(n % 10)]);
        assert(decimal(n) =~= decimal(n / 10) + seq![digit_char(n % 10)]);
    }
}

proof fn lemma_number_ascii(n: JsonNumber)
    requires
        n matches JsonNumber::Float(f) ==> float_decimal(f),
    ensures
        is_ascii_text(number_text(n)),
{
    match n {
        JsonNumber::PosInt(u) => lemma_decimal_ascii(u as nat),
        JsonNumber::NegInt(i) => {
            if i < 0 {
                lemma_decimal_ascii((-i) as nat);
                lemma_ascii_concat(seq!['-'], decimal((-i) as nat));
            } else {
                lemma_decimal_ascii(i as nat);
            }
        },
        JsonNumber::Float(f) => {
            let d = f.digits_spec();
            assert(is_ascii_text(d));
            let e = f.exponent_spec();
            let body = float_body(d, e);
            assert(f.class_spec() == FloatClass::Finite ==> is_ascii_text(body)) by {
              if f.class_spec() == FloatClass::Finite {
                let ex: nat = if e < 0 { (-e) as nat } else { e as nat };
                lemma_decimal_ascii(ex);
                assert(is_ascii_text(two_digits(ex)));
                let decpt = e + 1;
                if -4 < decpt && decpt <= 16 {
                    if decpt <= 0 {
                        assert(is_ascii_text(zeros((-decpt) as nat)));
                        lemma_ascii_concat(seq!['0', '.'], zeros((-decpt) as nat));
                        lemma_ascii_concat(seq!['0', '.'] + zeros((-decpt) as nat), d);
                    } else if decpt >= d.len() {
                        assert(is_ascii_text(zeros((decpt - d.len()) as nat)));
                        lemma_ascii_concat(d, zeros((decpt - d.len()) as nat));
                        lemma_ascii_concat(d + zeros((decpt - d.len()) as nat), seq!['.', '0']);
                    } else {
                        lemma_ascii_sub(d, 0, decpt);
                        lemma_ascii_sub(d, decpt, d.len() as int);
                        assert(d.take(decpt) == d.subrange(0, decpt));
                        assert(d.skip(decpt) == d.subrange(decpt, d.len() as int));
                        lemma_ascii_concat(d.take(decpt), seq!['.']);
                        lemma_ascii_concat(d.take(decpt) + seq!['.'], d.skip(decpt));
                    }
                } else {
                    let mid: Seq<char> = if d.len() > 1 {
                        seq!['.'] + d.skip(1)
                    } else {
                        Seq::empty()
                    };
                    if d.len() > 1 {
                        lemma_ascii_sub(d, 1, d.len() as int);
                        assert(d.skip(1) == d.subrange(1, d.len() as int));
                        lemma_ascii_concat(seq!['.'], d.skip(1));
                    }
                    let sign: char = if e < 0 { '-' } else { '+' };
                    assert(is_ascii_text(seq![d[0]]));
                    lemma_ascii_concat(seq![d[0]], mid);
                    lemma_ascii_concat(seq![d[0]] + mid, seq!['e', sign]);
                    lemma_ascii_concat(seq![d[0]] + mid + seq!['e', sign], two_digits(ex));
                }
              }
            }
            match f.class_spec() {
                FloatClass::Finite => {
                    if f.negative_spec() {
                        lemma_ascii_concat(seq!['-'], body);
                    } else {
                        lemma_ascii_concat(Seq::empty(), body);
                    }
                },
                _ => {},
            }
        },
    }
}

/// With `ensure_ascii`, `json.dumps` writes pure ASCII: every character from U+007F up is
/// escaped, and numbers are written in ASCII digits.
pub proof fn lemma_dump_ascii(v: JsonValue)
    requires
        floats_decimal(v),
    ensures
        is_ascii_text(dump_value(v, true)),
    decreases v,
{
    match v {
        JsonValue::Number(n) => lemma_number_ascii(n),
        JsonValue::String(s) => lemma_json_string_ascii(s@),
        JsonValue::Array(items) => {
            lemma_dump_items_ascii(items@);
            lemma_ascii_concat(seq!['['], dump_items(items@, true));
            lemma_ascii_concat(seq!['['] + dump_items(items@, true), seq![']']);
        },
        JsonValue::Object(members) => {
            lemma_dump_members_ascii(members@);
            lemma_ascii_concat(seq!['{'], dump_members(members@, true));
            lemma_ascii_concat(seq!['{'] + dump_members(members@, true), seq!['}']);
        },
        _ => {},
    }
}

proof fn lemma_dump_items_ascii(items: Seq<JsonValue>)
    requires
        floats_decimal_items(items),
    ensures
        is_ascii_text(dump_items(items, true)),
    decreases items,
{
    if items.len() == 1 {
        assert(items.drop_last().len() == 0);
        assert(items[0] == items.last());
        lemma_dump_ascii(items[0]);
    } else if items.len() > 1 {
        lemma_dump_items_ascii(items.drop_last());
        lemma_dump_ascii(items.last());
        lemma_ascii_concat(dump_items(items.drop_last(), true), seq![',', ' ']);
        lemma_ascii_concat(dump_items(items.drop_last(), true) + seq![',', ' '], dump_value(items.last(), true));
    }
}

proof fn lemma_dump_members_ascii(members: Seq<(String, JsonValue)>)
    requires
        floats_decimal_members(members),
    ensures
        is_ascii_text(dump_members(members, true)),
    decreases members,
{
    if members.len() >= 1 {
        let m = members.last();
        if members.len() > 1 {
            lemma_dump_members_ascii(members.drop_last());
        }
        lemma_dump_ascii(m.1);
        lemma_json_string_ascii(m.0@);
        let entry = json_string(m.0@, true) + seq![':', ' '] + dump_value(m.1, true);
        lemma_ascii_concat(json_string(m.0@, true), seq![':', ' ']);
        lemma_ascii_concat(json_string(m.0@, true) + seq![':', ' '], dump_value(m.1, true));
        if members.len() > 1 {
            lemma_ascii_concat(dump_members(members.drop_last(), true), seq![',', ' ']);
            lemma_ascii_concat(dump_members(members.drop_last(), true) + seq![',', ' '], entry);
            assert(dump_members(members, true) == dump_members(members.drop_last(), true) + seq![',', ' '] + entry);
        } else {
            assert(members[0] == m);
        }
    }
}

} // verus!
