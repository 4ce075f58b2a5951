//! Character-level helpers shared by the renderers, the router and the language detector.
//!
//! Text is handled as `Vec<char>` inside the library; `String` appears at the public edges.

use vstd::prelude::*;
use vstd::std_specs::iter::IteratorSpec;

verus! {

// ---------------------------------------------------------------------------------------------
// Unicode properties from std and from `unicode_general_category`.
// ---------------------------------------------------------------------------------------------

/// The two-letter abbreviation of the general category that `unicode_general_category`
/// assigns to `c` (`Lu`, `Ll`, `Nd`, …).
pub uninterp spec fn general_category(c: char) -> Seq<char>;

/// The five letter categories.
pub open spec fn is_letter_category(g: Seq<char>) -> bool {
    g == "Lu"@ || g == "Ll"@ || g == "Lt"@ || g == "Lm"@ || g == "Lo"@
}

/// ASCII letters and ASCII decimal digits.
pub open spec fn is_ascii_letter(c: char) -> bool {
    ('a' <= c && c <= 'z') || ('A' <= c && c <= 'Z')
}

pub open spec fn is_ascii_digit(c: char) -> bool {
    '0' <= c && c <= '9'
}

/// `unicode_general_category::get_general_category`, read through
/// `GeneralCategory::abbreviation`. Claimed: the result is a function of `c`; on ASCII the
/// crate's table gives `Lu` for `A`–`Z`, `Ll` for `a`–`z`, `Nd` for `0`–`9`, and no letter or
/// decimal category for any other ASCII character.
#[verifier::external_body]
pub fn category_of(c: char) -> (r: &'static str)
    ensures
        r@ == general_category(c),
        'A' <= c <= 'Z' ==> r@ == "Lu"@,
        'a' <= c <= 'z' ==> r@ == "Ll"@,
        '0' <= c <= '9' ==> r@ == "Nd"@,
        (c as u32) < 128 && !is_ascii_letter(c) && !is_ascii_digit(c) ==> !is_letter_category(r@)
            && r@ != "Nd"@,
{
    unicode_general_category::get_general_category(c).abbreviation()
}

/// Whether two strings hold the same characters.
pub fn str_eq(a: &str, b: &str) -> (r: bool)
    ensures
        r == (a@ == b@),
{
    let ac = chars_of(a);
    chars_eq_str(&ac, b)
}

/// Python `str.isalpha()` on one character: the five Unicode letter categories (on ASCII, the
/// letters `A`–`Z` and `a`–`z`).
pub open spec fn is_alpha_spec(c: char) -> bool {
    if (c as u32) < 128 {
        is_ascii_letter(c)
    } else {
        is_letter_category(general_category(c))
    }
}

/// Python `str.isdecimal()` on one character (on ASCII, `0`–`9`).
pub open spec fn is_decimal_spec(c: char) -> bool {
    if (c as u32) < 128 {
        is_ascii_digit(c)
    } else {
        general_category(c) == "Nd"@
    }
}

pub fn is_alpha(c: char) -> (r: bool)
    ensures
        r == is_alpha_spec(c),
{
    proof {
        reveal_category_codes();
    }
    let g = category_of(c);
    str_eq(g, "Lu") || str_eq(g, "Ll") || str_eq(g, "Lt") || str_eq(g, "Lm") || str_eq(g, "Lo")
}

pub fn is_decimal(c: char) -> (r: bool)
    ensures
        r == is_decimal_spec(c),
{
    proof {
        reveal_category_codes();
    }
    str_eq(category_of(c), "Nd")
}

/// The category abbreviations the library tells apart are distinct.
proof fn reveal_category_codes()
    ensures
        !is_letter_category("Nd"@),
{
    reveal_strlit("Lu");
    reveal_strlit("Ll");
    reveal_strlit("Lt");
    reveal_strlit("Lm");
    reveal_strlit("Lo");
    reveal_strlit("Nd");
    assert("Nd"@[0] != "Lu"@[0] && "Nd"@[0] != "Ll"@[0] && "Nd"@[0] != "Lt"@[0]);
    assert("Nd"@[0] != "Lm"@[0] && "Nd"@[0] != "Lo"@[0]);
}


/// Whether `c` has the Unicode `White_Space` property (std `char::is_whitespace`): U+0009–U+000D,
/// U+0020, U+0085, U+00A0, U+1680, U+2000–U+200A, U+2028, U+2029, U+202F, U+205F, U+3000.
pub open spec fn is_whitespace_spec(c: char) -> bool {
    let v = c as u32;
    ||| is_ascii_whitespace_char(c)
    ||| v == 0x85 || v == 0xA0 || v == 0x1680
    ||| 0x2000 <= v <= 0x200A
    ||| v == 0x2028 || v == 0x2029 || v == 0x202F || v == 0x205F || v == 0x3000
}

/// ASCII whitespace: tab, line feed, vertical tab, form feed, carriage return, space.
pub open spec fn is_ascii_whitespace_char(c: char) -> bool {
    c == '\t' || c == '\n' || c == '\x0B' || c == '\x0C' || c == '\r' || c == ' '
}

/// std `char::is_whitespace`. Claimed: exactly the characters of the Unicode `White_Space`
/// property, which the documentation names and [`is_whitespace_spec`] lists.
#[verifier::external_body]
pub fn is_whitespace(c: char) -> (r: bool)
    ensures
        r == is_whitespace_spec(c),
{
    c.is_whitespace()
}

/// Whether a character from U+0080 up is alphabetic or numeric in Unicode terms.
pub uninterp spec fn non_ascii_alphanumeric(c: char) -> bool;

/// Whether `c` is alphabetic or numeric in Unicode terms (std `char::is_alphanumeric`).
pub open spec fn is_alphanumeric_spec(c: char) -> bool {
    if (c as u32) < 128 {
        is_ascii_letter(c) || is_ascii_digit(c)
    } else {
        non_ascii_alphanumeric(c)
    }
}

/// std `char::is_alphanumeric`. Claimed: a function of `c`; on ASCII exactly the letters and
/// digits.
#[verifier::external_body]
pub fn is_alphanumeric(c: char) -> (r: bool)
    ensures
        r == is_alphanumeric_spec(c),
        (c as u32) >= 128 ==> r == non_ascii_alphanumeric(c),
{
    c.is_alphanumeric()
}

/// The lowercase form, per the Unicode `Lowercase` mapping, of a string holding a character
/// from U+0080 up.
pub uninterp spec fn non_ascii_lowercase(s: Seq<char>) -> Seq<char>;

pub open spec fn ascii_lower_char(c: char) -> char {
    if 'A' <= c && c <= 'Z' {
        ((c as u32) + 32) as char
    } else {
        c
    }
}

pub open spec fn ascii_lower(s: Seq<char>) -> Seq<char> {
    s.map_values(|c: char| ascii_lower_char(c))
}

pub open spec fn all_ascii(s: Seq<char>) -> bool {
    forall|i: int| 0 <= i < s.len() ==> (#[trigger] s[i] as u32) < 128
}

/// The lowercase form of a string (std `str::to_lowercase`).
pub open spec fn lowercase_spec(s: Seq<char>) -> Seq<char> {
    if all_ascii(s) {
        ascii_lower(s)
    } else {
        non_ascii_lowercase(s)
    }
}

/// std `str::to_lowercase`. Claimed: a function of the characters of `s`; on ASCII text it
/// maps `A`–`Z` to `a`–`z` and keeps every other character.
#[verifier::external_body]
pub fn to_lowercase(s: &str) -> (r: String)
    ensures
        r@ == lowercase_spec(s@),
        !all_ascii(s@) ==> r@ == non_ascii_lowercase(s@),
{
    s.to_lowercase()
}

/// Rust's `Debug` rendering of a string: double-quoted with escapes.
pub uninterp spec fn debug_quoted(s: Seq<char>) -> Seq<char>;

/// `<str as Debug>::fmt`, as `format!("{s:?}")` renders it. Claimed: a function of the
/// characters of `s`.
#[verifier::external_body]
pub fn debug_str(s: &str) -> (r: String)
    ensures
        r@ == debug_quoted(s@),
{
    format!("{s:?}")
}

// ---------------------------------------------------------------------------------------------
// Conversions between `str`, `String` and `Vec<char>`.
// ---------------------------------------------------------------------------------------------

/// `String::push`: appends one character.
#[verifier::external_body]
pub fn push_char(s: &mut String, c: char)
    ensures
        final(s)@ == old(s)@.push(c),
{
    s.push(c)
}

/// The characters of `s`, in order.
pub fn chars_of(s: &str) -> (r: Vec<char>)
    ensures
        r@ == s@,
{
    let mut out: Vec<char> = Vec::new();
    for c in iter: s.chars()
        invariant
            out@ == iter.seq().take(iter.index() as int),
    {
        out.push(c);
    }
    assert(out@ =~= s@);
    out
}

/// A `String` holding exactly the characters of `v`.
pub fn string_of(v: &[char]) -> (r: String)
    ensures
        r@ == v@,
{
    let mut out = String::new();
    let mut i: usize = 0;
    while i < v.len()
        invariant
            i <= v.len(),
            out@ == v@.subrange(0, i as int),
        decreases v.len() - i,
    {
        push_char(&mut out, v[i]);
        i += 1;
        assert(out@ =~= v@.subrange(0, i as int));
    }
    assert(v@.subrange(0, v.len() as int) =~= v@);
    out
}

/// Appends the characters of `s` to `out`.
pub fn push_str(out: &mut Vec<char>, s: &str)
    ensures
        final(out)@ == old(out)@ + s@,
{
    let cs = chars_of(s);
    push_chars(out, &cs);
}

/// Appends the characters of `s` to `out`.
pub fn push_chars(out: &mut Vec<char>, s: &[char])
    ensures
        final(out)@ == old(out)@ + s@,
{
    let ghost start = out@;
    let mut i: usize = 0;
    while i < s.len()
        invariant
            i <= s.len(),
            out@ == start + s@.subrange(0, i as int),
        decreases s.len() - i,
    {
        out.push(s[i]);
        i += 1;
        assert(out@ =~= start + s@.subrange(0, i as int));
    }
    assert(s@.subrange(0, s.len() as int) =~= s@);
}

/// Whether the characters of `v` are exactly those of `s`.
pub fn chars_eq(v: &[char], s: &[char]) -> (r: bool)
    ensures
        r == (v@ == s@),
{
    if v.len() != s.len() {
        return false;
    }
    let mut i: usize = 0;
    while i < v.len()
        invariant
            v.len() == s.len(),
            i <= v.len(),
            forall|j: int| 0 <= j < i ==> v@[j] == s@[j],
        decreases v.len() - i,
    {
        if v[i] != s[i] {
            return false;
        }
        i += 1;
    }
    assert(v@ =~= s@);
    true
}

/// Whether the characters of `v` spell the string `s`.
pub fn chars_eq_str(v: &[char], s: &str) -> (r: bool)
    ensures
        r == (v@ == s@),
{
    let cs = chars_of(s);
    chars_eq(v, &cs)
}

/// Whether `c` occurs in `s`.
pub fn contains_char(s: &[char], c: char) -> (r: bool)
    ensures
        r == s@.contains(c),
{
    let mut i: usize = 0;
    while i < s.len()
        invariant
            i <= s.len(),
            forall|j: int| 0 <= j < i ==> s@[j] != c,
        decreases s.len() - i,
    {
        if s[i] == c {
            return true;
        }
        i += 1;
    }
    false
}

// ---------------------------------------------------------------------------------------------
// Verified string operations.
// ---------------------------------------------------------------------------------------------

/// ASCII lowercase of every character (std `str::to_ascii_lowercase`).
pub fn to_ascii_lowercase(s: &[char]) -> (r: Vec<char>)
    ensures
        r@ == ascii_lower(s@),
{
    let mut out: Vec<char> = Vec::new();
    let mut i: usize = 0;
    while i < s.len()
        invariant
            i <= s.len(),
            out@ == ascii_lower(s@.subrange(0, i as int)),
        decreases s.len() - i,
    {
        let c = s[i];
        let l = if 'A' <= c && c <= 'Z' {
            let code: u32 = (c as u32) + 32;
            proof {
                assert(code == (c as u32) + 32);
            }
            char_from_ascii(code)
        } else {
            c
        };
        out.push(l);
        i += 1;
        assert(out@ =~= ascii_lower(s@.subrange(0, i as int)));
    }
    assert(s@.subrange(0, s.len() as int) =~= s@);
    out
}

/// The character with an ASCII code point.
fn char_from_ascii(code: u32) -> (c: char)
    requires
        code < 128,
    ensures
        c as u32 == code,
        c == code as char,
{
    let b: u8 = code as u8;
    b as char
}

/// `s` with leading and trailing whitespace removed (std `str::trim`).
pub open spec fn trim_spec(s: Seq<char>) -> Seq<char>
    decreases s.len(),
{
    if s.len() == 0 {
        s
    } else if is_whitespace_spec(s[0]) {
        trim_spec(s.drop_first())
    } else if is_whitespace_spec(s.last()) {
        trim_spec(s.drop_last())
    } else {
        s
    }
}

proof fn lemma_trim_back(s: Seq<char>)
    requires
        s.len() > 0,
        !is_whitespace_spec(s[0]),
    ensures
        trim_spec(s) == (if is_whitespace_spec(s.last()) {
            trim_spec(s.drop_last())
        } else {
            s
        }),
{
}

pub fn trim(s: &[char]) -> (r: Vec<char>)
    ensures
        r@ == trim_spec(s@),
{
    let mut start: usize = 0;
    assert(s@.subrange(0, s.len() as int) =~= s@);
    while start < s.len() && is_whitespace(s[start])
        invariant
            start <= s.len(),
            trim_spec(s@) == trim_spec(s@.subrange(start as int, s.len() as int)),
        decreases s.len() - start,
    {
        assert(s@.subrange(start as int, s.len() as int).drop_first() =~= s@.subrange(
            start + 1,
            s.len() as int,
        ));
        start += 1;
    }
    let mut end: usize = s.len();
    while end > start && is_whitespace(s[end - 1])
        invariant
            start <= end <= s.len(),
            start < s.len() ==> !is_whitespace_spec(s@[start as int]),
            trim_spec(s@) == trim_spec(s@.subrange(start as int, end as int)),
        decreases end - start,
    {
        let ghost sub = s@.subrange(start as int, end as int);
        proof {
            lemma_trim_back(sub);
            assert(sub.drop_last() =~= s@.subrange(start as int, end - 1));
        }
        end -= 1;
    }
    proof {
        let sub = s@.subrange(start as int, end as int);
        if sub.len() > 0 {
            lemma_trim_back(sub);
        }
    }
    let mut out: Vec<char> = Vec::new();
    let mut i: usize = start;
    while i < end
        invariant
            start <= i <= end <= s.len(),
            out@ == s@.subrange(start as int, i as int),
        decreases end - i,
    {
        out.push(s[i]);
        i += 1;
        assert(out@ =~= s@.subrange(start as int, i as int));
    }
    out
}

/// `s` with every non-overlapping occurrence of `pat`, scanned left to right, replaced by
/// `rep` (std `str::replace`). An empty pattern matches before every character and at the end.
pub open spec fn replace_spec(s: Seq<char>, pat: Seq<char>, rep: Seq<char>) -> Seq<char>
    decreases s.len(),
{
    if pat.len() == 0 {
        if s.len() == 0 {
            rep
        } else {
            rep + seq![s[0]] + replace_spec(s.drop_first(), pat, rep)
        }
    } else if s.len() < pat.len() {
        s
    } else if s.take(pat.len() as int) == pat {
        rep + replace_spec(s.skip(pat.len() as int), pat, rep)
    } else {
        seq![s[0]] + replace_spec(s.drop_first(), pat, rep)
    }
}

/// Whether `pat` occurs in `s` at position `at`.
fn matches_at(s: &[char], at: usize, pat: &[char]) -> (r: bool)
    requires
        at + pat.len() <= s.len(),
    ensures
        r == (s@.subrange(at as int, at + pat.len()) == pat@),
{
    let mut j: usize = 0;
    while j < pat.len()
        invariant
            at + pat.len() <= s.len(),
            j <= pat.len(),
            forall|k: int| 0 <= k < j ==> s@[at + k] == pat@[k],
        decreases pat.len() - j,
    {
        if s[at + j] != pat[j] {
            assert(s@.subrange(at as int, at + pat.len())[j as int] != pat@[j as int]);
            return false;
        }
        j += 1;
    }
    assert(s@.subrange(at as int, at + pat.len()) =~= pat@);
    true
}

/// Appends `s[from..to]` to `out`.
pub fn push_range(out: &mut Vec<char>, s: &[char], from: usize, to: usize)
    requires
        from <= to <= s.len(),
    ensures
        final(out)@ == old(out)@ + s@.subrange(from as int, to as int),
{
    let ghost start = out@;
    let mut i: usize = from;
    while i < to
        invariant
            from <= i <= to <= s.len(),
            out@ == start + s@.subrange(from as int, i as int),
        decreases to - i,
    {
        out.push(s[i]);
        i += 1;
        assert(out@ =~= start + s@.subrange(from as int, i as int));
    }
}

pub fn replace(s: &[char], pat: &[char], rep: &[char]) -> (r: Vec<char>)
    ensures
        r@ == replace_spec(s@, pat@, rep@),
{
    let mut out: Vec<char> = Vec::new();
    let mut i: usize = 0;
    assert(s@.subrange(0, s.len() as int) =~= s@);
    while i < s.len()
        invariant
            i <= s.len(),
            out@ + replace_spec(s@.subrange(i as int, s.len() as int), pat@, rep@)
                == replace_spec(s@, pat@, rep@),
        decreases s.len() - i,
    {
        let ghost rest = s@.subrange(i as int, s.len() as int);
        let ghost before = out@;
        if pat.len() == 0 {
            push_chars(&mut out, rep);
            out.push(s[i]);
            proof {
                assert(rest.drop_first() =~= s@.subrange(i + 1, s.len() as int));
                assert(out@ =~= before + rep@ + seq![rest[0]]);
            }
            i += 1;
        } else if s.len() - i < pat.len() {
            push_range(&mut out, s, i, s.len());
            proof {
                assert(s@.subrange(s.len() as int, s.len() as int) =~= Seq::<char>::empty());
            }
            i = s.len();
        } else if matches_at(s, i, pat) {
            proof {
                assert(rest.take(pat.len() as int) =~= s@.subrange(i as int, i + pat.len()));
                assert(rest.skip(pat.len() as int) =~= s@.subrange(i + pat.len(), s.len() as int));
            }
            push_chars(&mut out, rep);
            i += pat.len();
        } else {
            proof {
                assert(rest.take(pat.len() as int) =~= s@.subrange(i as int, i + pat.len()));
                assert(rest.drop_first() =~= s@.subrange(i + 1, s.len() as int));
            }
            out.push(s[i]);
            proof {
                assert(out@ =~= before + seq![rest[0]]);
            }
            i += 1;
        }
    }
    proof {
        assert(s@.subrange(s.len() as int, s.len() as int) =~= Seq::<char>::empty());
    }
    if pat.len() == 0 {
        push_chars(&mut out, rep);
    } else {
        proof {
            assert(out@ + Seq::<char>::empty() =~= out@);
        }
    }
    out
}

} // verus!
