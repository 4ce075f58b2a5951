//! Script and language detection for routing: is this English Latin text, or something the
//! English checkpoint cannot read? Script detection is exact; the Latin-script language guess is
//! a stopword/diacritic heuristic and explicitly best-effort.

use vstd::prelude::*;
use indexmap::IndexMap;
use crate::collections::{
    count_entries, counts_at, counts_get, counts_insert, counts_len, counts_new, index_of_key,
    insert_entry,
};
use crate::json::JsonValue;
use crate::state::State;
use crate::text::{
    all_ascii, chars_eq_str, chars_of, contains_char, is_alpha, is_alpha_spec, is_alphanumeric,
    is_alphanumeric_spec, is_decimal, is_decimal_spec, lowercase_spec, push_chars, string_of,
    to_lowercase,
};

verus! {

/// Index of the pseudo-script `latin`, one past the script table.
pub const LATIN: usize = 25;

/// Latin letters: Basic Latin through IPA Extensions, and Latin Extended Additional.
pub open spec fn is_latin_spec(cp: u32) -> bool {
    cp < 0x0250 || (0x1E00 <= cp && cp <= 0x1EFF)
}

pub fn is_latin(cp: u32) -> (r: bool)
    ensures
        r == is_latin_spec(cp),
{
    cp < 0x0250 || (0x1E00 <= cp && cp <= 0x1EFF)
}

/// Index in the script table of the first script whose blocks hold `cp`.
pub open spec fn script_of_spec(cp: u32) -> Option<usize> {
    if (0x0370 <= cp && cp <= 0x03FF) || (0x1F00 <= cp && cp <= 0x1FFF) {
        Some(0)
    } else if (0x0400 <= cp && cp <= 0x052F) || (0x2DE0 <= cp && cp <= 0x2DFF) || (0xA640 <= cp && cp <= 0xA69F) {
        Some(1)
    } else if (0x0530 <= cp && cp <= 0x058F) {
        Some(2)
    } else if (0x0590 <= cp && cp <= 0x05FF) {
        Some(3)
    } else if (0x0600 <= cp && cp <= 0x06FF) || (0x0750 <= cp && cp <= 0x077F) || (0x08A0 <= cp && cp <= 0x08FF) || (0xFB50 <= cp && cp <= 0xFDFF) || (0xFE70 <= cp && cp <= 0xFEFF) {
        Some(4)
    } else if (0x0900 <= cp && cp <= 0x097F) || (0xA8E0 <= cp && cp <= 0xA8FF) {
        Some(5)
    } else if (0x0980 <= cp && cp <= 0x09FF) {
        Some(6)
    } else if (0x0A00 <= cp && cp <= 0x0A7F) {
        Some(7)
    } else if (0x0A80 <= cp && cp <= 0x0AFF) {
        Some(8)
    } else if (0x0B00 <= cp && cp <= 0x0B7F) {
        Some(9)
    } else if (0x0B80 <= cp && cp <= 0x0BFF) {
        Some(10)
    } else if (0x0C00 <= cp && cp <= 0x0C7F) {
        Some(11)
    } else if (0x0C80 <= cp && cp <= 0x0CFF) {
        Some(12)
    } else if (0x0D00 <= cp && cp <= 0x0D7F) {
        Some(13)
    } else if (0x0D80 <= cp && cp <= 0x0DFF) {
        Some(14)
    } else if (0x0E00 <= cp && cp <= 0x0E7F) {
        Some(15)
    } else if (0x0E80 <= cp && cp <= 0x0EFF) {
        Some(16)
    } else if (0x0F00 <= cp && cp <= 0x0FFF) {
        Some(17)
    } else if (0x1000 <= cp && cp <= 0x109F) {
        Some(18)
    } else if (0x10A0 <= cp && cp <= 0x10FF) {
        Some(19)
    } else if (0x1200 <= cp && cp <= 0x137F) {
        Some(20)
    } else if (0x1780 <= cp && cp <= 0x17FF) {
        Some(21)
    } else if (0x1100 <= cp && cp <= 0x11FF) || (0x3130 <= cp && cp <= 0x318F) || (0xAC00 <= cp && cp <= 0xD7AF) {
        Some(22)
    } else if (0x3040 <= cp && cp <= 0x309F) || (0x30A0 <= cp && cp <= 0x30FF) || (0x31F0 <= cp && cp <= 0x31FF) {
        Some(23)
    } else if (0x3400 <= cp && cp <= 0x4DBF) || (0x4E00 <= cp && cp <= 0x9FFF) || (0xF900 <= cp && cp <= 0xFAFF) {
        Some(24)
    } else {
        None
    }
}

/// The script of `cp` by the table of Unicode blocks the English checkpoint cannot read.
pub fn script_of(cp: u32) -> (r: Option<usize>)
    ensures
        r == script_of_spec(cp),
{
    if (0x0370 <= cp && cp <= 0x03FF) || (0x1F00 <= cp && cp <= 0x1FFF) {
        Some(0)
    } else if (0x0400 <= cp && cp <= 0x052F) || (0x2DE0 <= cp && cp <= 0x2DFF) || (0xA640 <= cp && cp <= 0xA69F) {
        Some(1)
    } else if (0x0530 <= cp && cp <= 0x058F) {
        Some(2)
    } else if (0x0590 <= cp && cp <= 0x05FF) {
        Some(3)
    } else if (0x0600 <= cp && cp <= 0x06FF) || (0x0750 <= cp && cp <= 0x077F) || (0x08A0 <= cp && cp <= 0x08FF) || (0xFB50 <= cp && cp <= 0xFDFF) || (0xFE70 <= cp && cp <= 0xFEFF) {
        Some(4)
    } else if (0x0900 <= cp && cp <= 0x097F) || (0xA8E0 <= cp && cp <= 0xA8FF) {
        Some(5)
    } else if (0x0980 <= cp && cp <= 0x09FF) {
        Some(6)
    } else if (0x0A00 <= cp && cp <= 0x0A7F) {
        Some(7)
    } else if (0x0A80 <= cp && cp <= 0x0AFF) {
        Some(8)
    } else if (0x0B00 <= cp && cp <= 0x0B7F) {
        Some(9)
    } else if (0x0B80 <= cp && cp <= 0x0BFF) {
        Some(10)
    } else if (0x0C00 <= cp && cp <= 0x0C7F) {
        Some(11)
    } else if (0x0C80 <= cp && cp <= 0x0CFF) {
        Some(12)
    } else if (0x0D00 <= cp && cp <= 0x0D7F) {
        Some(13)
    } else if (0x0D80 <= cp && cp <= 0x0DFF) {
        Some(14)
    } else if (0x0E00 <= cp && cp <= 0x0E7F) {
        Some(15)
    } else if (0x0E80 <= cp && cp <= 0x0EFF) {
        Some(16)
    } else if (0x0F00 <= cp && cp <= 0x0FFF) {
        Some(17)
    } else if (0x1000 <= cp && cp <= 0x109F) {
        Some(18)
    } else if (0x10A0 <= cp && cp <= 0x10FF) {
        Some(19)
    } else if (0x1200 <= cp && cp <= 0x137F) {
        Some(20)
    } else if (0x1780 <= cp && cp <= 0x17FF) {
        Some(21)
    } else if (0x1100 <= cp && cp <= 0x11FF) || (0x3130 <= cp && cp <= 0x318F) || (0xAC00 <= cp && cp <= 0xD7AF) {
        Some(22)
    } else if (0x3040 <= cp && cp <= 0x309F) || (0x30A0 <= cp && cp <= 0x30FF) || (0x31F0 <= cp && cp <= 0x31FF) {
        Some(23)
    } else if (0x3400 <= cp && cp <= 0x4DBF) || (0x4E00 <= cp && cp <= 0x9FFF) || (0xF900 <= cp && cp <= 0xFAFF) {
        Some(24)
    } else {
        None
    }
}

/// Name of a script by its index; index `LATIN` is `latin`.
pub open spec fn script_name_spec(i: usize) -> Seq<char> {
    if i == 0 {
        "greek"@
    } else if i == 1 {
        "cyrillic"@
    } else if i == 2 {
        "armenian"@
    } else if i == 3 {
        "hebrew"@
    } else if i == 4 {
        "arabic"@
    } else if i == 5 {
        "devanagari"@
    } else if i == 6 {
        "bengali"@
    } else if i == 7 {
        "gurmukhi"@
    } else if i == 8 {
        "gujarati"@
    } else if i == 9 {
        "oriya"@
    } else if i == 10 {
        "tamil"@
    } else if i == 11 {
        "telugu"@
    } else if i == 12 {
        "kannada"@
    } else if i == 13 {
        "malayalam"@
    } else if i == 14 {
        "sinhala"@
    } else if i == 15 {
        "thai"@
    } else if i == 16 {
        "lao"@
    } else if i == 17 {
        "tibetan"@
    } else if i == 18 {
        "myanmar"@
    } else if i == 19 {
        "georgian"@
    } else if i == 20 {
        "ethiopic"@
    } else if i == 21 {
        "khmer"@
    } else if i == 22 {
        "hangul"@
    } else if i == 23 {
        "kana"@
    } else if i == 24 {
        "han"@
    } else {
        "latin"@
    }
}

pub fn script_name(i: usize) -> (r: &'static str)
    ensures
        r@ == script_name_spec(i),
{
    if i == 0 {
        "greek"
    } else if i == 1 {
        "cyrillic"
    } else if i == 2 {
        "armenian"
    } else if i == 3 {
        "hebrew"
    } else if i == 4 {
        "arabic"
    } else if i == 5 {
        "devanagari"
    } else if i == 6 {
        "bengali"
    } else if i == 7 {
        "gurmukhi"
    } else if i == 8 {
        "gujarati"
    } else if i == 9 {
        "oriya"
    } else if i == 10 {
        "tamil"
    } else if i == 11 {
        "telugu"
    } else if i == 12 {
        "kannada"
    } else if i == 13 {
        "malayalam"
    } else if i == 14 {
        "sinhala"
    } else if i == 15 {
        "thai"
    } else if i == 16 {
        "lao"
    } else if i == 17 {
        "tibetan"
    } else if i == 18 {
        "myanmar"
    } else if i == 19 {
        "georgian"
    } else if i == 20 {
        "ethiopic"
    } else if i == 21 {
        "khmer"
    } else if i == 22 {
        "hangul"
    } else if i == 23 {
        "kana"
    } else if i == 24 {
        "han"
    } else {
        "latin"
    }
}

// ---------------------------------------------------------------------------------------------
// Script names by Unicode block.
// ---------------------------------------------------------------------------------------------

/// The script named by the Unicode block that holds `cp`, among the blocks the English
/// checkpoint cannot read (the first listed block wins).
pub open spec fn block_script(cp: u32) -> Option<Seq<char>> {
    if (0x0370 <= cp <= 0x03FF) || (0x1F00 <= cp <= 0x1FFF) {
        Some("greek"@)
    } else if (0x0400 <= cp <= 0x052F) || (0x2DE0 <= cp <= 0x2DFF) || (0xA640 <= cp <= 0xA69F) {
        Some("cyrillic"@)
    } else if (0x0530 <= cp <= 0x058F) {
        Some("armenian"@)
    } else if (0x0590 <= cp <= 0x05FF) {
        Some("hebrew"@)
    } else if (0x0600 <= cp <= 0x06FF) || (0x0750 <= cp <= 0x077F) || (0x08A0 <= cp <= 0x08FF) || (0xFB50 <= cp <= 0xFDFF) || (0xFE70 <= cp <= 0xFEFF) {
        Some("arabic"@)
    } else if (0x0900 <= cp <= 0x097F) || (0xA8E0 <= cp <= 0xA8FF) {
        Some("devanagari"@)
    } else if (0x0980 <= cp <= 0x09FF) {
        Some("bengali"@)
    } else if (0x0A00 <= cp <= 0x0A7F) {
        Some("gurmukhi"@)
    } else if (0x0A80 <= cp <= 0x0AFF) {
        Some("gujarati"@)
    } else if (0x0B00 <= cp <= 0x0B7F) {
        Some("oriya"@)
    } else if (0x0B80 <= cp <= 0x0BFF) {
        Some("tamil"@)
    } else if (0x0C00 <= cp <= 0x0C7F) {
        Some("telugu"@)
    } else if (0x0C80 <= cp <= 0x0CFF) {
        Some("kannada"@)
    } else if (0x0D00 <= cp <= 0x0D7F) {
        Some("malayalam"@)
    } else if (0x0D80 <= cp <= 0x0DFF) {
        Some("sinhala"@)
    } else if (0x0E00 <= cp <= 0x0E7F) {
        Some("thai"@)
    } else if (0x0E80 <= cp <= 0x0EFF) {
        Some("lao"@)
    } else if (0x0F00 <= cp <= 0x0FFF) {
        Some("tibetan"@)
    } else if (0x1000 <= cp <= 0x109F) {
        Some("myanmar"@)
    } else if (0x10A0 <= cp <= 0x10FF) {
        Some("georgian"@)
    } else if (0x1200 <= cp <= 0x137F) {
        Some("ethiopic"@)
    } else if (0x1780 <= cp <= 0x17FF) {
        Some("khmer"@)
    } else if (0x1100 <= cp <= 0x11FF) || (0x3130 <= cp <= 0x318F) || (0xAC00 <= cp <= 0xD7AF) {
        Some("hangul"@)
    } else if (0x3040 <= cp <= 0x309F) || (0x30A0 <= cp <= 0x30FF) || (0x31F0 <= cp <= 0x31FF) {
        Some("kana"@)
    } else if (0x3400 <= cp <= 0x4DBF) || (0x4E00 <= cp <= 0x9FFF) || (0xF900 <= cp <= 0xFAFF) {
        Some("han"@)
    } else {
        None
    }
}

/// The script a code point is counted under is named after the Unicode block that holds it:
/// U+0590–U+05FF is `hebrew`, U+0600–U+06FF `arabic`, and so on for every block of the table.
pub proof fn lemma_script_names_its_block(cp: u32)
    ensures
        match script_of_spec(cp) {
            Some(k) => k < LATIN && Some(script_name_spec(k)) == block_script(cp),
            None => block_script(cp) is None,
        },
{
}

// ---------------------------------------------------------------------------------------------
// Letter counts per script.
// ---------------------------------------------------------------------------------------------

/// One more letter of script `k`: an existing entry is incremented in place, a new script is
/// appended with count 1.
pub open spec fn count_step(es: Seq<(usize, usize)>, k: usize) -> Seq<(usize, usize)> {
    match index_of_key(es, k) {
        Some(i) => es.update(i, (k, (es[i].1 + 1) as usize)),
        None => es.push((k, 1usize)),
    }
}

/// Letter counts per non-Latin script in first-seen order, and the number of Latin letters.
pub open spec fn script_counts_spec(text: Seq<char>) -> (Seq<(usize, usize)>, nat)
    decreases text.len(),
{
    if text.len() == 0 {
        (Seq::empty(), 0)
    } else {
        let (es, latin) = script_counts_spec(text.drop_last());
        let c = text.last();
        if !is_alpha_spec(c) {
            (es, latin)
        } else if is_latin_spec(c as u32) {
            (es, latin + 1)
        } else {
            match script_of_spec(c as u32) {
                Some(k) => (count_step(es, k), latin),
                None => (es, latin),
            }
        }
    }
}

/// Sum of the counts.
pub open spec fn count_sum(es: Seq<(usize, usize)>) -> nat
    decreases es.len(),
{
    if es.len() == 0 {
        0
    } else {
        count_sum(es.drop_last()) + es.last().1 as nat
    }
}

proof fn lemma_entry_le_sum(es: Seq<(usize, usize)>, i: int)
    requires
        0 <= i < es.len(),
    ensures
        es[i].1 <= count_sum(es),
    decreases es.len(),
{
    if i < es.len() - 1 {
        lemma_entry_le_sum(es.drop_last(), i);
    }
}

proof fn lemma_index_of_key(es: Seq<(usize, usize)>, k: usize)
    ensures
        index_of_key(es, k) matches Some(i) ==> 0 <= i < es.len() && es[i].0 == k,
        index_of_key(es, k) is None ==> forall|j: int| 0 <= j < es.len() ==> es[j].0 != k,
    decreases es.len(),
{
    if es.len() > 0 {
        lemma_index_of_key(es.drop_last(), k);
        assert forall|j: int| 0 <= j < es.len() - 1 implies es[j] == es.drop_last()[j] by {}
    }
}

proof fn lemma_count_step_sum(es: Seq<(usize, usize)>, k: usize)
    requires
        count_sum(es) < usize::MAX,
    ensures
        count_sum(count_step(es, k)) == count_sum(es) + 1,
        count_step(es, k) == insert_entry(
            es,
            k,
            match index_of_key(es, k) {
                Some(i) => (es[i].1 + 1) as usize,
                None => 1usize,
            },
        ),
    decreases es.len(),
{
    lemma_index_of_key(es, k);
    if es.len() > 0 {
        let init = es.drop_last();
        lemma_entry_le_sum(es, es.len() - 1);
        lemma_count_step_sum(init, k);
        match index_of_key(init, k) {
            Some(i) => {
                lemma_index_of_key(init, k);
                lemma_entry_le_sum(init, i);
                assert(count_step(es, k).drop_last() =~= count_step(init, k));
            },
            None => {
                if es.last().0 == k {
                    assert(count_step(es, k).drop_last() =~= init);
                } else {
                    assert(count_step(es, k).drop_last() =~= es);
                }
            },
        }
    } else {
        assert(count_step(es, k).drop_last() =~= es);
    }
}

/// The letter counts of a text never exceed its length, and a text whose dominant script is
/// known holds at least one letter.
pub proof fn lemma_letters_bound(text: Seq<char>)
    requires
        text.len() < usize::MAX,
    ensures
        count_sum(script_counts_spec(text).0) + script_counts_spec(text).1 <= text.len(),
        detect_script_spec(text) != "unknown"@ ==> count_sum(script_counts_spec(text).0)
            + script_counts_spec(text).1 > 0,
    decreases text.len(),
{
    if text.len() > 0 {
        lemma_letters_bound(text.drop_last());
        let (es, latin) = script_counts_spec(text.drop_last());
        match script_of_spec(text.last() as u32) {
            Some(k) => {
                lemma_count_step_sum(es, k);
            },
            None => {},
        }
    }
    let (es, latin) = script_counts_spec(text);
    lemma_latin_appended(text);
    assert(all_counts_spec(text).drop_last() =~= es);
}

/// The detection text of a state holds at most 4000 characters.
pub proof fn lemma_state_text_len(state: State)
    ensures
        state_text_spec(state).len() <= MAX_DETECTION_CHARS,
{
}

/// Counts the letters of `text` per script (Latin separately), in first-seen order.
fn script_counts(text: &[char]) -> (r: (IndexMap<usize, usize>, usize))
    ensures
        count_entries(r.0) == script_counts_spec(text@).0,
        r.1 == script_counts_spec(text@).1,
        count_sum(count_entries(r.0)) + r.1 <= text.len(),
{
    let mut counts = counts_new();
    let mut latin: usize = 0;
    let mut i: usize = 0;
    while i < text.len()
        invariant
            i <= text.len(),
            count_entries(counts) == script_counts_spec(text@.subrange(0, i as int)).0,
            latin == script_counts_spec(text@.subrange(0, i as int)).1,
            count_sum(count_entries(counts)) + latin <= i,
        decreases text.len() - i,
    {
        let c = text[i];
        proof {
            assert(text@.subrange(0, i + 1).drop_last() =~= text@.subrange(0, i as int));
        }
        if is_alpha(c) {
            let cp = c as u32;
            if is_latin(cp) {
                latin += 1;
            } else {
                match script_of(cp) {
                    Some(k) => {
                        let ghost es = count_entries(counts);
                        proof {
                            lemma_count_step_sum(es, k);
                            lemma_index_of_key(es, k);
                            match index_of_key(es, k) {
                                Some(j) => lemma_entry_le_sum(es, j),
                                None => {},
                            }
                        }
                        match counts_get(&counts, k) {
                            Some(n) => counts_insert(&mut counts, k, n + 1),
                            None => counts_insert(&mut counts, k, 1),
                        }
                    },
                    None => {},
                }
            }
        }
        i += 1;
    }
    assert(text@.subrange(0, text.len() as int) =~= text@);
    (counts, latin)
}

/// The first entry holding the largest count, scanning in order from (none, 0).
pub open spec fn best_of(es: Seq<(usize, usize)>) -> (Option<usize>, nat)
    decreases es.len(),
{
    if es.len() == 0 {
        (None, 0)
    } else {
        let (b, n) = best_of(es.drop_last());
        if es.last().1 > n {
            (Some(es.last().0), es.last().1 as nat)
        } else {
            (b, n)
        }
    }
}

/// The counts with Latin appended last, where the dominant-script scan meets it last.
pub open spec fn all_counts_spec(text: Seq<char>) -> Seq<(usize, usize)> {
    let (es, latin) = script_counts_spec(text);
    insert_entry(es, LATIN, latin as usize)
}

/// Dominant script of `text`: the first script with the most letters (Latin last), or
/// `unknown` when the text has no letters of any known script.
pub open spec fn detect_script_spec(text: Seq<char>) -> Seq<char> {
    let all = all_counts_spec(text);
    if count_sum(all) == 0 {
        "unknown"@
    } else {
        match best_of(all).0 {
            Some(k) => script_name_spec(k),
            None => "unknown"@,
        }
    }
}

proof fn lemma_counts_keys(text: Seq<char>)
    ensures
        forall|j: int|
            0 <= j < script_counts_spec(text).0.len() ==> #[trigger] script_counts_spec(
                text,
            ).0[j].0 < LATIN,
    decreases text.len(),
{
    if text.len() > 0 {
        lemma_counts_keys(text.drop_last());
        let (es, latin) = script_counts_spec(text.drop_last());
        match script_of_spec(text.last() as u32) {
            Some(k) => {
                lemma_index_of_key(es, k);
            },
            None => {},
        }
    }
}

proof fn lemma_latin_appended(text: Seq<char>)
    ensures
        all_counts_spec(text) == script_counts_spec(text).0.push(
            (LATIN, script_counts_spec(text).1 as usize),
        ),
{
    lemma_counts_keys(text);
    lemma_index_of_key(script_counts_spec(text).0, LATIN);
}

/// The counts with Latin appended last.
fn all_counts(text: &[char]) -> (r: IndexMap<usize, usize>)
    ensures
        count_entries(r) == all_counts_spec(text@),
        count_sum(count_entries(r)) <= text.len(),
{
    let (mut counts, latin) = script_counts(text);
    proof {
        lemma_latin_appended(text@);
        let es = script_counts_spec(text@).0;
        assert(es.push((LATIN, latin)).drop_last() =~= es);
    }
    counts_insert(&mut counts, LATIN, latin);
    counts
}

/// Sum of the counts of a map.
fn total_of(m: &IndexMap<usize, usize>, bound: usize) -> (r: usize)
    requires
        count_sum(count_entries(*m)) <= bound,
    ensures
        r == count_sum(count_entries(*m)),
{
    let n = counts_len(m);
    let ghost es = count_entries(*m);
    let mut total: usize = 0;
    let mut i: usize = 0;
    while i < n
        invariant
            n == es.len(),
            es == count_entries(*m),
            count_sum(es) <= bound,
            i <= n,
            total == count_sum(es.subrange(0, i as int)),
        decreases n - i,
    {
        proof {
            assert(es.subrange(0, i + 1).drop_last() =~= es.subrange(0, i as int));
            lemma_sum_prefix(es, i + 1);
        }
        match counts_at(m, i) {
            Some((_, c)) => {
                total = total + c;
            },
            None => {},
        }
        i += 1;
    }
    assert(es.subrange(0, n as int) =~= es);
    total
}

proof fn lemma_sum_prefix(es: Seq<(usize, usize)>, k: int)
    requires
        0 <= k <= es.len(),
    ensures
        count_sum(es.subrange(0, k)) <= count_sum(es),
    decreases es.len(),
{
    if k < es.len() {
        lemma_sum_prefix(es.drop_last(), k);
        assert(es.drop_last().subrange(0, k) =~= es.subrange(0, k));
    } else {
        assert(es.subrange(0, k) =~= es);
    }
}

/// The entry with the most letters, first wins on ties.
fn best_entry(m: &IndexMap<usize, usize>) -> (r: Option<usize>)
    ensures
        r == best_of(count_entries(*m)).0,
{
    let n = counts_len(m);
    let ghost es = count_entries(*m);
    let mut best: Option<usize> = None;
    let mut best_n: usize = 0;
    let mut i: usize = 0;
    while i < n
        invariant
            n == es.len(),
            es == count_entries(*m),
            i <= n,
            (best, best_n as nat) == best_of(es.subrange(0, i as int)),
        decreases n - i,
    {
        proof {
            assert(es.subrange(0, i + 1).drop_last() =~= es.subrange(0, i as int));
        }
        match counts_at(m, i) {
            Some((k, c)) => {
                if c > best_n {
                    best = Some(k);
                    best_n = c;
                }
            },
            None => {},
        }
        i += 1;
    }
    assert(es.subrange(0, n as int) =~= es);
    best
}

/// Dominant script of `text`, or `unknown` when it has no letters.
pub fn detect_script(text: &str) -> (r: &'static str)
    ensures
        r@ == detect_script_spec(text@),
{
    let cs = chars_of(text);
    detect_script_chars(&cs)
}

fn detect_script_chars(text: &[char]) -> (r: &'static str)
    ensures
        r@ == detect_script_spec(text@),
{
    let counts = all_counts(text);
    let total = total_of(&counts, text.len());
    if total == 0 {
        return "unknown";
    }
    match best_entry(&counts) {
        Some(k) => script_name(k),
        None => "unknown",
    }
}

/// No script is named `unknown`.
proof fn lemma_name_known(k: usize)
    ensures
        script_name_spec(k) != "unknown"@,
{
    reveal_strlit("unknown");
    let name = script_name_spec(k);
    if name == "unknown"@ {
        reveal_strlit("greek");
        reveal_strlit("cyrillic");
        reveal_strlit("armenian");
        reveal_strlit("hebrew");
        reveal_strlit("arabic");
        reveal_strlit("devanagari");
        reveal_strlit("bengali");
        reveal_strlit("gurmukhi");
        reveal_strlit("gujarati");
        reveal_strlit("oriya");
        reveal_strlit("tamil");
        reveal_strlit("telugu");
        reveal_strlit("kannada");
        reveal_strlit("malayalam");
        reveal_strlit("sinhala");
        reveal_strlit("thai");
        reveal_strlit("lao");
        reveal_strlit("tibetan");
        reveal_strlit("myanmar");
        reveal_strlit("georgian");
        reveal_strlit("ethiopic");
        reveal_strlit("khmer");
        reveal_strlit("hangul");
        reveal_strlit("kana");
        reveal_strlit("han");
        reveal_strlit("latin");
        assert(name[0] == 'u');
        assert(name.len() == 7);
        assert(false);
    }
}

/// The scan from (none, 0) finds nothing exactly when every count is zero; otherwise it finds
/// an entry with the largest count, and every entry before it has fewer.
proof fn lemma_best_of(es: Seq<(usize, usize)>)
    ensures
        best_of(es).0 is None <==> forall|j: int| 0 <= j < es.len() ==> #[trigger] es[j].1 == 0,
        best_of(es).0 is None ==> best_of(es).1 == 0,
        best_of(es).0 is Some ==> exists|i: int|
            #![trigger es[i]]
            0 <= i < es.len() && best_of(es).0 == Some(es[i].0) && best_of(es).1 == es[i].1
                && es[i].1 > 0 && (forall|j: int| 0 <= j < es.len() ==> #[trigger] es[j].1
                <= es[i].1) && (forall|j: int| 0 <= j < i ==> #[trigger] es[j].1 < es[i].1),
    decreases es.len(),
{
    if es.len() > 0 {
        let init = es.drop_last();
        lemma_best_of(init);
        assert forall|j: int| 0 <= j < init.len() implies #[trigger] init[j] == es[j] by {}
        let last = es.len() - 1;
        if es.last().1 > best_of(init).1 {
            assert(es[last] == es.last());
            if best_of(init).0 is Some {
                let i = choose|i: int|
                    #![trigger init[i]]
                    0 <= i < init.len() && best_of(init).0 == Some(init[i].0) && best_of(init).1
                        == init[i].1 && init[i].1 > 0 && (forall|j: int|
                        0 <= j < init.len() ==> #[trigger] init[j].1 <= init[i].1) && (forall|
                        j: int,
                    |
                        0 <= j < i ==> #[trigger] init[j].1 < init[i].1);
                assert(init[i] == es[i]);
                assert forall|j: int| 0 <= j < es.len() implies #[trigger] es[j].1 <= es[last].1 by {
                    if j < last {
                        assert(init[j] == es[j]);
                    }
                }
            } else {
                assert forall|j: int| 0 <= j < es.len() implies #[trigger] es[j].1 <= es[last].1 by {
                    if j < last {
                        assert(init[j] == es[j]);
                    }
                }
            }
            assert forall|j: int| 0 <= j < last implies #[trigger] es[j].1 < es[last].1 by {
                assert(init[j] == es[j]);
                assert(es[j].1 <= es[last].1);
                if best_of(init).0 is Some {
                    let i = choose|i: int|
                        #![trigger init[i]]
                        0 <= i < init.len() && best_of(init).0 == Some(init[i].0) && best_of(
                            init,
                        ).1 == init[i].1 && init[i].1 > 0 && (forall|j: int|
                            0 <= j < init.len() ==> #[trigger] init[j].1 <= init[i].1) && (
                        forall|j: int| 0 <= j < i ==> #[trigger] init[j].1 < init[i].1);
                    assert(init[j].1 <= init[i].1);
                } else {
                    assert(init[j].1 == 0);
                }
            }
        } else {
            if best_of(init).0 is Some {
                let i = choose|i: int|
                    #![trigger init[i]]
                    0 <= i < init.len() && best_of(init).0 == Some(init[i].0) && best_of(init).1
                        == init[i].1 && init[i].1 > 0 && (forall|j: int|
                        0 <= j < init.len() ==> #[trigger] init[j].1 <= init[i].1) && (forall|
                        j: int,
                    |
                        0 <= j < i ==> #[trigger] init[j].1 < init[i].1);
                assert(init[i] == es[i]);
                assert forall|j: int| 0 <= j < es.len() implies #[trigger] es[j].1 <= es[i].1 by {
                    if j < last {
                        assert(init[j] == es[j]);
                    }
                }
                assert forall|j: int| 0 <= j < i implies #[trigger] es[j].1 < es[i].1 by {
                    assert(init[j] == es[j]);
                }
            } else {
                assert(es.last().1 == 0);
                assert forall|j: int| 0 <= j < es.len() implies #[trigger] es[j].1 == 0 by {
                    if j < last {
                        assert(init[j] == es[j]);
                    }
                }
            }
        }
        if best_of(es).0 is None {
            assert forall|j: int| 0 <= j < es.len() implies #[trigger] es[j].1 == 0 by {
                if j < last {
                    assert(init[j] == es[j]);
                }
            }
        }
    }
}

/// A sum of counts is zero exactly when every count is.
proof fn lemma_sum_zero(es: Seq<(usize, usize)>)
    ensures
        count_sum(es) == 0 <==> forall|j: int| 0 <= j < es.len() ==> #[trigger] es[j].1 == 0,
    decreases es.len(),
{
    if es.len() > 0 {
        let init = es.drop_last();
        lemma_sum_zero(init);
        assert forall|j: int| 0 <= j < init.len() implies #[trigger] init[j] == es[j] by {}
        if count_sum(es) == 0 {
            assert forall|j: int| 0 <= j < es.len() implies #[trigger] es[j].1 == 0 by {
                if j < es.len() - 1 {
                    assert(init[j] == es[j]);
                }
            }
        } else if forall|j: int| 0 <= j < es.len() ==> #[trigger] es[j].1 == 0 {
            assert(es[es.len() - 1].1 == 0);
            assert forall|j: int| 0 <= j < init.len() implies #[trigger] init[j].1 == 0 by {
                assert(init[j] == es[j]);
            }
        }
    }
}

/// The dominant script of a text: `unknown` exactly when the text has no letters of a known
/// script; otherwise the script of an entry of the counts (the other scripts in first-seen
/// order, Latin appended last) that holds the most letters, where every entry before it holds
/// fewer, so that a tie goes to the script seen first and Latin loses every tie.
pub proof fn lemma_dominant_script(text: Seq<char>)
    requires
        text.len() < usize::MAX,
    ensures
        all_counts_spec(text) == script_counts_spec(text).0.push(
            (LATIN, script_counts_spec(text).1 as usize),
        ),
        (detect_script_spec(text) == "unknown"@) <==> count_sum(script_counts_spec(text).0)
            + script_counts_spec(text).1 == 0,
        detect_script_spec(text) != "unknown"@ ==> exists|i: int|
            #![trigger all_counts_spec(text)[i]]
            0 <= i < all_counts_spec(text).len() && detect_script_spec(text) == script_name_spec(
                all_counts_spec(text)[i].0,
            ) && (forall|j: int|
                0 <= j < all_counts_spec(text).len() ==> #[trigger] all_counts_spec(text)[j].1
                    <= all_counts_spec(text)[i].1) && (forall|j: int|
                0 <= j < i ==> #[trigger] all_counts_spec(text)[j].1 < all_counts_spec(
                    text,
                )[i].1),
{
    let (es, latin) = script_counts_spec(text);
    let all = all_counts_spec(text);
    lemma_latin_appended(text);
    lemma_letters_bound(text);
    assert(all.drop_last() =~= es);
    assert(count_sum(all) == count_sum(es) + latin);
    lemma_best_of(all);
    lemma_sum_zero(all);
    match best_of(all).0 {
        Some(k) => lemma_name_known(k),
        None => {},
    }
}

/// Every script counted in a text, and Latin when it has a count, has a letter of the text
/// behind it.
proof fn lemma_count_witness(text: Seq<char>)
    ensures
        forall|j: int|
            0 <= j < script_counts_spec(text).0.len() ==> exists|i: int|
                0 <= i < text.len() && is_alpha_spec(text[i]) && !is_latin_spec(text[i] as u32)
                    && script_of_spec(#[trigger] text[i] as u32) == Some(
                    (#[trigger] script_counts_spec(text).0[j]).0,
                ),
        script_counts_spec(text).1 > 0 ==> exists|i: int|
            0 <= i < text.len() && is_alpha_spec(text[i]) && is_latin_spec(#[trigger] text[i] as u32),
    decreases text.len(),
{
    if text.len() > 0 {
        let init = text.drop_last();
        lemma_count_witness(init);
        let (es, latin) = script_counts_spec(init);
        let es2 = script_counts_spec(text).0;
        let c = text.last();
        let n = text.len() - 1;
        assert(text[n] == c);
        assert forall|i: int| 0 <= i < init.len() implies #[trigger] init[i] == text[i] by {}
        if latin > 0 {
            let i = choose|i: int| 0 <= i < init.len() && is_alpha_spec(init[i]) && is_latin_spec(#[trigger] init[i] as u32);
            assert(text[i] == init[i]);
        }
        assert forall|j: int| 0 <= j < es2.len() implies exists|i: int|
            0 <= i < text.len() && is_alpha_spec(text[i]) && !is_latin_spec(text[i] as u32)
                && script_of_spec(#[trigger] text[i] as u32) == Some((#[trigger] es2[j]).0) by {
            let fresh = is_alpha_spec(c) && !is_latin_spec(c as u32) && script_of_spec(c as u32) is Some;
            if fresh {
                let k = script_of_spec(c as u32)->0;
                lemma_index_of_key(es, k);
                match index_of_key(es, k) {
                    Some(p) => {
                        assert(es2 == es.update(p, (k, (es[p].1 + 1) as usize)));
                        if j == p {
                            assert(es2[j].0 == k);
                            assert(script_of_spec(text[n] as u32) == Some(es2[j].0));
                        } else {
                            assert(es2[j] == es[j]);
                            let i = choose|i: int|
                                0 <= i < init.len() && is_alpha_spec(init[i]) && !is_latin_spec(init[i] as u32)
                                    && script_of_spec(#[trigger] init[i] as u32) == Some((#[trigger] es[j]).0);
                            assert(text[i] == init[i]);
                        }
                    },
                    None => {
                        assert(es2 == es.push((k, 1usize)));
                        if j == es.len() {
                            assert(es2[j].0 == k);
                            assert(script_of_spec(text[n] as u32) == Some(es2[j].0));
                        } else {
                            assert(es2[j] == es[j]);
                            let i = choose|i: int|
                                0 <= i < init.len() && is_alpha_spec(init[i]) && !is_latin_spec(init[i] as u32)
                                    && script_of_spec(#[trigger] init[i] as u32) == Some((#[trigger] es[j]).0);
                            assert(text[i] == init[i]);
                        }
                    },
                }
            } else {
                assert(es2 == es);
                let i = choose|i: int|
                    0 <= i < init.len() && is_alpha_spec(init[i]) && !is_latin_spec(init[i] as u32)
                        && script_of_spec(#[trigger] init[i] as u32) == Some((#[trigger] es[j]).0);
                assert(text[i] == init[i]);
            }
        }
        if script_counts_spec(text).1 > 0 && !(latin > 0) {
            assert(is_alpha_spec(c) && is_latin_spec(c as u32));
        }
    }
}

/// The dominant script detected in a text is the script of one of its letters: unless it is
/// `unknown`, some letter of the text lies in the Unicode block of that name, or the name is
/// `latin` and some letter is Latin. Arabic text is never called `hebrew`.
pub proof fn lemma_detected_script_has_a_letter(text: Seq<char>)
    requires
        text.len() < usize::MAX,
    ensures
        detect_script_spec(text) != "unknown"@ ==> exists|i: int|
            0 <= i < text.len() && is_alpha_spec(text[i]) && (block_script(#[trigger] text[i] as u32)
                == Some(detect_script_spec(text)) || (detect_script_spec(text) == "latin"@
                && is_latin_spec(text[i] as u32))),
{
    let (es, latin) = script_counts_spec(text);
    let all = all_counts_spec(text);
    let d = detect_script_spec(text);
    if d != "unknown"@ {
        lemma_dominant_script(text);
        lemma_count_witness(text);
        lemma_letters_bound(text);
        lemma_latin_appended(text);
        let i = choose|i: int|
            #![trigger all[i]]
            0 <= i < all.len() && d == script_name_spec(all[i].0) && (forall|j: int|
                0 <= j < all.len() ==> #[trigger] all[j].1 <= all[i].1) && (forall|j: int|
                0 <= j < i ==> #[trigger] all[j].1 < all[i].1);
        if i < es.len() {
            assert(all[i] == es[i]);
            let t = choose|t: int|
                0 <= t < text.len() && is_alpha_spec(text[t]) && !is_latin_spec(text[t] as u32)
                    && script_of_spec(#[trigger] text[t] as u32) == Some((#[trigger] es[i]).0);
            lemma_script_names_its_block(text[t] as u32);
        } else {
            assert(all[i] == (LATIN, latin as usize));
            lemma_sum_zero(all);
            let j = choose|j: int| 0 <= j < all.len() && !(#[trigger] all[j].1 == 0);
            assert(all[j].1 <= all[i].1);
            assert(latin > 0);
        }
    }
}

/// A text has an empty script profile exactly when it has no letters, which is exactly when its
/// dominant script is `unknown`; its Latin letters are among its letters.
pub proof fn lemma_profile_empty(text: Seq<char>)
    requires
        text.len() < usize::MAX,
    ensures
        (profile_spec(text).len() == 0) <==> count_sum(script_counts_spec(text).0)
            + script_counts_spec(text).1 == 0,
        (profile_spec(text).len() == 0) <==> (detect_script_spec(text) == "unknown"@),
        script_counts_spec(text).1 <= count_sum(script_counts_spec(text).0)
            + script_counts_spec(text).1,
{
    let (es, latin) = script_counts_spec(text);
    lemma_dominant_script(text);
    if count_sum(es) + latin > 0 {
        if latin > 0 {
            assert(profile_spec(text)[0] == ("latin"@, latin as usize));
        } else {
            assert(es.len() > 0);
            assert(profile_spec(text).len() >= es.len());
        }
    }
}

/// Letters per script present: Latin first when there is any, then the other scripts in
/// first-seen order. Empty when the text has no letters.
pub open spec fn profile_spec(text: Seq<char>) -> Seq<(Seq<char>, usize)> {
    let (es, latin) = script_counts_spec(text);
    if count_sum(es) + latin == 0 {
        Seq::empty()
    } else {
        (if latin > 0 {
            seq![("latin"@, latin as usize)]
        } else {
            Seq::empty()
        }) + es.map_values(|e: (usize, usize)| (script_name_spec(e.0), e.1))
    }
}

/// The letters of each script present in `text` (see [`profile_spec`]); each script's share is
/// its count over the total.
pub fn script_profile(text: &str) -> (r: Vec<(String, usize)>)
    ensures
        r@.map_values(|p: (String, usize)| (p.0@, p.1)) == profile_spec(text@),
{
    let cs = chars_of(text);
    profile_of(&cs)
}

fn profile_of(text: &[char]) -> (r: Vec<(String, usize)>)
    ensures
        r@.map_values(|p: (String, usize)| (p.0@, p.1)) == profile_spec(text@),
{
    let (counts, latin) = script_counts(text);
    let ghost es = count_entries(counts);
    let others = total_of(&counts, text.len());
    let mut out: Vec<(String, usize)> = Vec::new();
    if others + latin == 0 {
        assert(out@.map_values(|p: (String, usize)| (p.0@, p.1)) =~= profile_spec(text@));
        return out;
    }
    if latin > 0 {
        out.push(("latin".to_owned(), latin));
    }
    let ghost head = out@.map_values(|p: (String, usize)| (p.0@, p.1));
    let n = counts_len(&counts);
    let mut i: usize = 0;
    while i < n
        invariant
            n == es.len(),
            es == count_entries(counts),
            i <= n,
            out@.map_values(|p: (String, usize)| (p.0@, p.1)) == head + es.subrange(
                0,
                i as int,
            ).map_values(|e: (usize, usize)| (script_name_spec(e.0), e.1)),
        decreases n - i,
    {
        let ghost before = out@;
        let ghost prefix = es.subrange(0, i as int);
        match counts_at(&counts, i) {
            Some((k, c)) => {
                let name = script_name(k).to_owned();
                assert(name@ == script_name_spec(k));
                out.push((name, c));
                proof {
                    assert(out@ == before.push((name, c)));
                    assert(out@.map_values(|p: (String, usize)| (p.0@, p.1)) =~= before.map_values(
                        |p: (String, usize)| (p.0@, p.1),
                    ).push((script_name_spec(k), c)));
                    assert(es.subrange(0, i + 1) =~= prefix.push(es[i as int]));
                    assert(es.subrange(0, i + 1).map_values(
                        |e: (usize, usize)| (script_name_spec(e.0), e.1),
                    ) =~= prefix.map_values(|e: (usize, usize)| (script_name_spec(e.0), e.1)).push(
                        (script_name_spec(k), c),
                    ));
                }
            },
            None => {},
        }
        i += 1;
        assert(out@.map_values(|p: (String, usize)| (p.0@, p.1)) =~= head + es.subrange(
            0,
            i as int,
        ).map_values(|e: (usize, usize)| (script_name_spec(e.0), e.1)));
    }
    assert(es.subrange(0, n as int) =~= es);
    proof {
        if latin > 0 {
            assert(head =~= seq![("latin"@, latin)]);
        } else {
            assert(head =~= Seq::<(Seq<char>, usize)>::empty());
        }
    }
    out
}

// ---------------------------------------------------------------------------------------------
// The text of a state.
// ---------------------------------------------------------------------------------------------

/// The string leaves of a JSON value in document order, keys ignored, down to depth 6.
pub open spec fn collect_spec(v: JsonValue, depth: nat) -> Seq<Seq<char>>
    decreases v, 1nat,
{
    if depth > 6 {
        Seq::empty()
    } else {
        match v {
            JsonValue::String(s) => seq![s@],
            JsonValue::Array(items) => collect_items_spec(items@, depth + 1),
            JsonValue::Object(members) => collect_members_spec(members@, depth + 1),
            _ => Seq::empty(),
        }
    }
}

pub open spec fn collect_items_spec(items: Seq<JsonValue>, depth: nat) -> Seq<Seq<char>>
    decreases items, 0nat,
{
    if items.len() == 0 {
        Seq::empty()
    } else {
        collect_items_spec(items.drop_last(), depth) + collect_spec(items.last(), depth)
    }
}

pub open spec fn collect_members_spec(members: Seq<(String, JsonValue)>, depth: nat) -> Seq<
    Seq<char>,
>
    decreases members, 0nat,
{
    if members.len() == 0 {
        Seq::empty()
    } else {
        collect_members_spec(members.drop_last(), depth) + collect_spec(members.last().1, depth)
    }
}

/// `parts` joined by single spaces.
pub open spec fn join_spec(parts: Seq<Seq<char>>) -> Seq<char>
    decreases parts.len(),
{
    if parts.len() == 0 {
        Seq::empty()
    } else if parts.len() == 1 {
        parts[0]
    } else {
        join_spec(parts.drop_last()) + seq![' '] + parts.last()
    }
}

/// The first `n` characters of `s` (all of them when shorter).
pub open spec fn truncate_spec(s: Seq<char>, n: nat) -> Seq<char> {
    if s.len() <= n {
        s
    } else {
        s.take(n as int)
    }
}

/// The longest detection text, in characters.
pub const MAX_DETECTION_CHARS: usize = 4000;

/// The text used for detection: string leaves joined by spaces, keys ignored (they are usually
/// English), capped at 4000 characters.
pub open spec fn state_text_spec(state: State) -> Seq<char> {
    let parts = match state {
        State::Text(s) => seq![s@],
        State::Json(v) => collect_spec(v, 0),
    };
    truncate_spec(join_spec(parts), MAX_DETECTION_CHARS as nat)
}

fn collect_text(value: &JsonValue, depth: usize, out: &mut Vec<String>)
    requires
        depth <= 7,
    ensures
        final(out)@.map_values(|s: String| s@) == old(out)@.map_values(|s: String| s@)
            + collect_spec(*value, depth as nat),
    decreases value, 1nat,
{
    if depth > 6 {
        assert(out@.map_values(|s: String| s@) =~= old(out)@.map_values(|s: String| s@)
            + collect_spec(*value, depth as nat));
        return;
    }
    match value {
        JsonValue::String(s) => {
            out.push(s.clone());
        },
        JsonValue::Array(items) => {
            collect_items(items, depth + 1, out);
        },
        JsonValue::Object(members) => {
            collect_members(members, depth + 1, out);
        },
        _ => {},
    }
    assert(out@.map_values(|s: String| s@) =~= old(out)@.map_values(|s: String| s@)
        + collect_spec(*value, depth as nat));
}

fn collect_items(items: &Vec<JsonValue>, depth: usize, out: &mut Vec<String>)
    requires
        depth <= 7,
    ensures
        final(out)@.map_values(|s: String| s@) == old(out)@.map_values(|s: String| s@)
            + collect_items_spec(items@, depth as nat),
    decreases items, 0nat,
{
    let ghost start = out@.map_values(|s: String| s@);
    let mut i: usize = 0;
    while i < items.len()
        invariant
            depth <= 7,
            i <= items.len(),
            out@.map_values(|s: String| s@) == start + collect_items_spec(
                items@.subrange(0, i as int),
                depth as nat,
            ),
        decreases items.len() - i,
    {
        proof {
            vstd::std_specs::vec::axiom_vec_index_decreases(*items, i as int);
            assert(items@.subrange(0, i + 1).drop_last() =~= items@.subrange(0, i as int));
        }
        collect_text(&items[i], depth, out);
        i += 1;
    }
    assert(items@.subrange(0, items.len() as int) =~= items@);
}

fn collect_members(members: &Vec<(String, JsonValue)>, depth: usize, out: &mut Vec<String>)
    requires
        depth <= 7,
    ensures
        final(out)@.map_values(|s: String| s@) == old(out)@.map_values(|s: String| s@)
            + collect_members_spec(members@, depth as nat),
    decreases members, 0nat,
{
    let ghost start = out@.map_values(|s: String| s@);
    let mut i: usize = 0;
    while i < members.len()
        invariant
            depth <= 7,
            i <= members.len(),
            out@.map_values(|s: String| s@) == start + collect_members_spec(
                members@.subrange(0, i as int),
                depth as nat,
            ),
        decreases members.len() - i,
    {
        proof {
            vstd::std_specs::vec::axiom_vec_index_decreases(*members, i as int);
            assert(members@.subrange(0, i + 1).drop_last() =~= members@.subrange(0, i as int));
        }
        collect_text(&members[i].1, depth, out);
        i += 1;
    }
    assert(members@.subrange(0, members.len() as int) =~= members@);
}

/// Flattens a state into the text used for detection: string leaves joined by spaces, keys
/// ignored, capped at 4000 characters.
pub fn state_text(state: &State) -> (r: String)
    ensures
        r@ == state_text_spec(*state),
{
    let mut parts: Vec<String> = Vec::new();
    match state {
        State::Text(s) => {
            parts.push(s.clone());
        },
        State::Json(v) => {
            collect_text(v, 0, &mut parts);
        },
    }
    let ghost views = parts@.map_values(|s: String| s@);
    proof {
        match state {
            State::Text(s) => {
                assert(views =~= seq![s@]);
            },
            State::Json(v) => {
                assert(views =~= collect_spec(*v, 0));
            },
        }
    }
    let mut joined: Vec<char> = Vec::new();
    let mut i: usize = 0;
    while i < parts.len()
        invariant
            i <= parts.len(),
            views == parts@.map_values(|s: String| s@),
            joined@ == join_spec(views.subrange(0, i as int)),
        decreases parts.len() - i,
    {
        if i > 0 {
            joined.push(' ');
        }
        let cs = chars_of(parts[i].as_str());
        push_chars(&mut joined, &cs);
        proof {
            let next = views.subrange(0, i + 1);
            assert(next.drop_last() =~= views.subrange(0, i as int));
            if i == 0 {
                assert(join_spec(next) == next[0]);
            }
        }
        i += 1;
    }
    assert(views.subrange(0, parts.len() as int) =~= views);
    if joined.len() > MAX_DETECTION_CHARS {
        joined.truncate(MAX_DETECTION_CHARS);
    }
    string_of(&joined)
}

// ---------------------------------------------------------------------------------------------
// Latin-script language guess.
// ---------------------------------------------------------------------------------------------

/// The function words of language `lang` (0 English, then French, German, Spanish,
/// Portuguese, Italian, Dutch).
pub open spec fn stopwords_spec(lang: usize) -> Seq<Seq<char>> {
    if lang == 0 {
        seq!["the"@, "and"@, "is"@, "are"@, "was"@, "were"@, "to"@, "of"@, "in"@, "for"@, "with"@, "that"@, "this"@, "it"@, "you"@, "have"@, "has"@, "not"@, "but"@, "on"@, "at"@, "be"@, "as"@, "from"@, "will"@, "can"@, "would"@, "there"@, "their"@, "what"@, "which"@, "please"@, "we"@, "i"@]
    } else if lang == 1 {
        seq!["le"@, "la"@, "les"@, "des"@, "une"@, "est"@, "pour"@, "dans"@, "que"@, "qui"@, "avec"@, "sur"@, "pas"@, "plus"@, "nous"@, "vous"@, "être"@, "cette"@, "mais"@, "sont"@, "ont"@, "aux"@, "ce"@]
    } else if lang == 2 {
        seq!["der"@, "die"@, "das"@, "und"@, "ist"@, "ein"@, "eine"@, "den"@, "dem"@, "nicht"@, "mit"@, "für"@, "auf"@, "von"@, "zu"@, "sich"@, "auch"@, "werden"@, "wurde"@, "haben"@, "sind"@, "oder"@, "aber"@]
    } else if lang == 3 {
        seq!["el"@, "los"@, "las"@, "que"@, "por"@, "con"@, "para"@, "una"@, "es"@, "se"@, "del"@, "como"@, "pero"@, "son"@, "está"@, "este"@, "esta"@, "todo"@, "más"@, "muy"@, "hay"@, "sus"@]
    } else if lang == 4 {
        seq!["os"@, "as"@, "que"@, "em"@, "um"@, "uma"@, "para"@, "com"@, "não"@, "é"@, "se"@, "do"@, "da"@, "dos"@, "das"@, "mas"@, "são"@, "está"@, "este"@, "esta"@, "muito"@, "pelo"@, "pela"@]
    } else if lang == 5 {
        seq!["il"@, "lo"@, "gli"@, "che"@, "di"@, "per"@, "con"@, "non"@, "è"@, "si"@, "del"@, "della"@, "sono"@, "questo"@, "questa"@, "anche"@, "come"@, "più"@, "sono"@, "nella"@, "alla"@]
    } else if lang == 6 {
        seq!["het"@, "een"@, "van"@, "is"@, "op"@, "te"@, "dat"@, "niet"@, "met"@, "voor"@, "zijn"@, "aan"@, "door"@, "maar"@, "ook"@, "worden"@, "deze"@, "naar"@, "wordt"@]
    } else {
        Seq::empty()
    }
}

fn stopwords(lang: usize) -> (r: Vec<&'static str>)
    ensures
        r@.map_values(|s: &str| s@) == stopwords_spec(lang),
{
    if lang == 0 {
        let v = vec!["the", "and", "is", "are", "was", "were", "to", "of", "in", "for", "with", "that", "this", "it", "you", "have", "has", "not", "but", "on", "at", "be", "as", "from", "will", "can", "would", "there", "their", "what", "which", "please", "we", "i"];
        assert(v@.map_values(|s: &str| s@) =~= stopwords_spec(lang));
        v
    } else if lang == 1 {
        let v = vec!["le", "la", "les", "des", "une", "est", "pour", "dans", "que", "qui", "avec", "sur", "pas", "plus", "nous", "vous", "être", "cette", "mais", "sont", "ont", "aux", "ce"];
        assert(v@.map_values(|s: &str| s@) =~= stopwords_spec(lang));
        v
    } else if lang == 2 {
        let v = vec!["der", "die", "das", "und", "ist", "ein", "eine", "den", "dem", "nicht", "mit", "für", "auf", "von", "zu", "sich", "auch", "werden", "wurde", "haben", "sind", "oder", "aber"];
        assert(v@.map_values(|s: &str| s@) =~= stopwords_spec(lang));
        v
    } else if lang == 3 {
        let v = vec!["el", "los", "las", "que", "por", "con", "para", "una", "es", "se", "del", "como", "pero", "son", "está", "este", "esta", "todo", "más", "muy", "hay", "sus"];
        assert(v@.map_values(|s: &str| s@) =~= stopwords_spec(lang));
        v
    } else if lang == 4 {
        let v = vec!["os", "as", "que", "em", "um", "uma", "para", "com", "não", "é", "se", "do", "da", "dos", "das", "mas", "são", "está", "este", "esta", "muito", "pelo", "pela"];
        assert(v@.map_values(|s: &str| s@) =~= stopwords_spec(lang));
        v
    } else if lang == 5 {
        let v = vec!["il", "lo", "gli", "che", "di", "per", "con", "non", "è", "si", "del", "della", "sono", "questo", "questa", "anche", "come", "più", "sono", "nella", "alla"];
        assert(v@.map_values(|s: &str| s@) =~= stopwords_spec(lang));
        v
    } else if lang == 6 {
        let v = vec!["het", "een", "van", "is", "op", "te", "dat", "niet", "met", "voor", "zijn", "aan", "door", "maar", "ook", "worden", "deze", "naar", "wordt"];
        assert(v@.map_values(|s: &str| s@) =~= stopwords_spec(lang));
        v
    } else {
        let v: Vec<&'static str> = Vec::new();
        assert(v@.map_values(|s: &str| s@) =~= stopwords_spec(lang));
        v
    }
}

/// The code of language `lang`.
pub open spec fn lang_code_spec(lang: usize) -> Seq<char> {
    if lang == 0 {
        "en"@
    } else if lang == 1 {
        "fr"@
    } else if lang == 2 {
        "de"@
    } else if lang == 3 {
        "es"@
    } else if lang == 4 {
        "pt"@
    } else if lang == 5 {
        "it"@
    } else if lang == 6 {
        "nl"@
    } else {
        Seq::empty()
    }
}

/// Different languages have different codes.
proof fn lemma_codes_differ(a: usize, b: usize)
    requires
        a != b,
        b < 7,
    ensures
        lang_code_spec(a) != lang_code_spec(b),
{
    reveal_strlit("en");
    reveal_strlit("fr");
    reveal_strlit("de");
    reveal_strlit("es");
    reveal_strlit("pt");
    reveal_strlit("it");
    reveal_strlit("nl");
    let x = lang_code_spec(a);
    let y = lang_code_spec(b);
    if x == y {
        assert(x.len() == 2);
        assert(x[0] == y[0] && x[1] == y[1]);
        assert(false);
    }
}

/// Each language code names the stopword list it belongs to: `en` the list with "the", `fr`
/// the one with "les", `de` "und", `es` "los", `pt` "uma", `it` "gli", `nl` "het", so the code a
/// guess reports names the language whose stopwords scored best.
pub proof fn lemma_codes_name_their_lists()
    ensures
        forall|l: usize| #[trigger] lang_code_spec(l) == "en"@ ==> stopwords_spec(l).contains("the"@),
        forall|l: usize| #[trigger] lang_code_spec(l) == "fr"@ ==> stopwords_spec(l).contains("les"@),
        forall|l: usize| #[trigger] lang_code_spec(l) == "de"@ ==> stopwords_spec(l).contains("und"@),
        forall|l: usize| #[trigger] lang_code_spec(l) == "es"@ ==> stopwords_spec(l).contains("los"@),
        forall|l: usize| #[trigger] lang_code_spec(l) == "pt"@ ==> stopwords_spec(l).contains("uma"@),
        forall|l: usize| #[trigger] lang_code_spec(l) == "it"@ ==> stopwords_spec(l).contains("gli"@),
        forall|l: usize| #[trigger] lang_code_spec(l) == "nl"@ ==> stopwords_spec(l).contains("het"@),
{
    assert forall|l: usize| #[trigger] lang_code_spec(l) == "en"@ implies stopwords_spec(l).contains("the"@) by {
        if l == 0 {
            assert(stopwords_spec(l)[0] == "the"@);
        } else {
            lemma_codes_differ(l, 0);
        }
    }
    assert forall|l: usize| #[trigger] lang_code_spec(l) == "fr"@ implies stopwords_spec(l).contains("les"@) by {
        if l == 1 {
            assert(stopwords_spec(l)[2] == "les"@);
        } else {
            lemma_codes_differ(l, 1);
        }
    }
    assert forall|l: usize| #[trigger] lang_code_spec(l) == "de"@ implies stopwords_spec(l).contains("und"@) by {
        if l == 2 {
            assert(stopwords_spec(l)[3] == "und"@);
        } else {
            lemma_codes_differ(l, 2);
        }
    }
    assert forall|l: usize| #[trigger] lang_code_spec(l) == "es"@ implies stopwords_spec(l).contains("los"@) by {
        if l == 3 {
            assert(stopwords_spec(l)[1] == "los"@);
        } else {
            lemma_codes_differ(l, 3);
        }
    }
    assert forall|l: usize| #[trigger] lang_code_spec(l) == "pt"@ implies stopwords_spec(l).contains("uma"@) by {
        if l == 4 {
            assert(stopwords_spec(l)[5] == "uma"@);
        } else {
            lemma_codes_differ(l, 4);
        }
    }
    assert forall|l: usize| #[trigger] lang_code_spec(l) == "it"@ implies stopwords_spec(l).contains("gli"@) by {
        if l == 5 {
            assert(stopwords_spec(l)[2] == "gli"@);
        } else {
            lemma_codes_differ(l, 5);
        }
    }
    assert forall|l: usize| #[trigger] lang_code_spec(l) == "nl"@ implies stopwords_spec(l).contains("het"@) by {
        if l == 6 {
            assert(stopwords_spec(l)[0] == "het"@);
        } else {
            lemma_codes_differ(l, 6);
        }
    }
}

fn lang_code(lang: usize) -> (r: &'static str)
    requires
        lang < 7,
    ensures
        r@ == lang_code_spec(lang),
{
    if lang == 0 {
        "en"
    } else if lang == 1 {
        "fr"
    } else if lang == 2 {
        "de"
    } else if lang == 3 {
        "es"
    } else if lang == 4 {
        "pt"
    } else if lang == 5 {
        "it"
    } else if lang == 6 {
        "nl"
    } else {
        "nl"
    }
}

/// Non-English diacritics.
pub open spec fn diacritics_spec() -> Seq<char> {
    "àâäãáåçéèêëíìîïñóòôöõøúùûüýÿßæœđłşţğıåäö"@
}

/// A word character: alphanumeric, not a decimal digit, not `_`.
pub open spec fn is_word_char(c: char) -> bool {
    is_alphanumeric_spec(c) && !is_decimal_spec(c) && c != '_'
}

/// The fields of `s` between separator characters, empty fields included.
pub open spec fn fields_spec(s: Seq<char>) -> Seq<Seq<char>>
    decreases s.len(),
{
    if s.len() == 0 {
        seq![Seq::empty()]
    } else {
        let f = fields_spec(s.drop_last());
        if is_word_char(s.last()) {
            f.update(f.len() - 1, f.last().push(s.last()))
        } else {
            f.push(Seq::empty())
        }
    }
}

/// The non-empty fields, lowercased.
pub open spec fn nonempty_lower(fs: Seq<Seq<char>>) -> Seq<Seq<char>>
    decreases fs.len(),
{
    if fs.len() == 0 {
        Seq::empty()
    } else {
        let w = nonempty_lower(fs.drop_last());
        if fs.last().len() == 0 {
            w
        } else {
            w.push(lowercase_spec(fs.last()))
        }
    }
}

/// The lowercased words of `text`.
pub open spec fn words_spec(text: Seq<char>) -> Seq<Seq<char>> {
    nonempty_lower(fields_spec(text))
}

/// How many of `words` are in `set`.
pub open spec fn count_in(words: Seq<Seq<char>>, set: Seq<Seq<char>>) -> nat
    decreases words.len(),
{
    if words.len() == 0 {
        0
    } else {
        count_in(words.drop_last(), set) + if set.contains(words.last()) {
            1nat
        } else {
            0nat
        }
    }
}

/// How many characters of `s` are in `set`.
pub open spec fn count_chars_in(s: Seq<char>, set: Seq<char>) -> nat
    decreases s.len(),
{
    if s.len() == 0 {
        0
    } else {
        count_chars_in(s.drop_last(), set) + if set.contains(s.last()) {
            1nat
        } else {
            0nat
        }
    }
}

/// Stopword hits of language `lang` among `words`.
pub open spec fn lang_score(words: Seq<Seq<char>>, lang: usize) -> nat {
    count_in(words, stopwords_spec(lang))
}

/// The first non-English language (among 1..=k) with the highest score, and that score.
pub open spec fn best_lang_upto(words: Seq<Seq<char>>, k: usize) -> (usize, nat)
    decreases k,
{
    if k <= 1 {
        (1, lang_score(words, 1))
    } else {
        let (b, n) = best_lang_upto(words, (k - 1) as usize);
        if lang_score(words, k) > n {
            (k, lang_score(words, k))
        } else {
            (b, n)
        }
    }
}

/// Best-effort language (as an index into the stopword table) for Latin-script text, or
/// `None` when undecided. Requires a clear margin over English function words; inputs of fewer
/// than four words give `None`. The diacritic rate compares as exact fractions: below 2% is
/// `50·d < n`, at least 4% is `25·d ≥ n`.
pub open spec fn guess_spec(text: Seq<char>) -> Option<usize> {
    let words = words_spec(text);
    if words.len() < 4 {
        None
    } else {
        let en = lang_score(words, 0);
        let (bl, best) = best_lang_upto(words, 6);
        let lowered = lowercase_spec(text);
        let diac = count_chars_in(lowered, diacritics_spec());
        let n: nat = if lowered.len() == 0 {
            1
        } else {
            lowered.len()
        };
        let english = if en > 0 {
            Some(0usize)
        } else {
            None
        };
        if best == 0 && diac * 50 < n {
            english
        } else if best >= 2 && best >= en + 2 {
            Some(bl)
        } else if diac * 25 >= n && best >= en {
            Some(bl)
        } else {
            english
        }
    }
}

pub open spec fn guess_code_spec(text: Seq<char>) -> Option<Seq<char>> {
    match guess_spec(text) {
        Some(l) => Some(lang_code_spec(l)),
        None => None,
    }
}

proof fn lemma_best_lang(words: Seq<Seq<char>>, k: usize)
    requires
        k >= 1,
    ensures
        best_lang_upto(words, k).1 == lang_score(words, best_lang_upto(words, k).0),
        1 <= best_lang_upto(words, k).0 <= k,
    decreases k,
{
    if k > 1 {
        lemma_best_lang(words, (k - 1) as usize);
    }
}

proof fn lemma_best_lang_max(words: Seq<Seq<char>>, k: usize)
    requires
        k >= 1,
    ensures
        forall|l: usize| 1 <= l <= k ==> #[trigger] lang_score(words, l) <= best_lang_upto(words, k).1,
        forall|l: usize|
            1 <= l < best_lang_upto(words, k).0 ==> #[trigger] lang_score(words, l)
                < best_lang_upto(words, k).1,
    decreases k,
{
    lemma_best_lang(words, k);
    if k > 1 {
        lemma_best_lang_max(words, (k - 1) as usize);
        lemma_best_lang(words, (k - 1) as usize);
    }
}

/// A language other than English is guessed only when its stopwords hit at least as often as
/// those of every other non-English language, and more often than those of each language
/// listed before it (French, German, Spanish, Portuguese, Italian, Dutch): the guess is the
/// first best-scoring list.
pub proof fn lemma_guess_scores_best(text: Seq<char>)
    ensures
        guess_spec(text) is Some && guess_spec(text)->0 != 0 ==> (forall|l: usize|
            1 <= l <= 6 ==> #[trigger] lang_score(words_spec(text), l) <= lang_score(
                words_spec(text),
                guess_spec(text)->0,
            )) && (forall|l: usize|
            1 <= l < guess_spec(text)->0 ==> #[trigger] lang_score(words_spec(text), l)
                < lang_score(words_spec(text), guess_spec(text)->0)),
{
    lemma_best_lang(words_spec(text), 6);
    lemma_best_lang_max(words_spec(text), 6);
}

/// The guess never calls text another language on fewer stopword hits than English has, so
/// ordinary English is not misrouted; English itself is guessed only on at least one English
/// hit, and inputs of fewer than four words get no guess.
pub proof fn lemma_guess_margin(text: Seq<char>)
    ensures
        words_spec(text).len() < 4 ==> guess_spec(text) is None,
        guess_spec(text) is Some && guess_spec(text)->0 != 0 ==> 1 <= guess_spec(text)->0 <= 6
            && lang_score(words_spec(text), guess_spec(text)->0) >= lang_score(words_spec(text), 0),
        guess_spec(text) == Some(0usize) ==> lang_score(words_spec(text), 0) > 0,
{
    lemma_best_lang(words_spec(text), 6);
}

/// The lowercase form of the characters `cs`.
fn lower_chars(cs: &[char]) -> (r: Vec<char>)
    ensures
        r@ == lowercase_spec(cs@),
{
    let s = string_of(cs);
    let l = to_lowercase(s.as_str());
    chars_of(l.as_str())
}

proof fn lemma_fields_nonempty(s: Seq<char>)
    ensures
        fields_spec(s).len() >= 1,
    decreases s.len(),
{
    if s.len() > 0 {
        lemma_fields_nonempty(s.drop_last());
    }
}

/// The lowercased words of `text`.
fn words_of(text: &[char]) -> (r: Vec<Vec<char>>)
    ensures
        r@.map_values(|w: Vec<char>| w@) == words_spec(text@),
{
    let mut words: Vec<Vec<char>> = Vec::new();
    let mut cur: Vec<char> = Vec::new();
    let mut i: usize = 0;
    while i < text.len()
        invariant
            i <= text.len(),
            fields_spec(text@.subrange(0, i as int)).len() >= 1,
            cur@ == fields_spec(text@.subrange(0, i as int)).last(),
            words@.map_values(|w: Vec<char>| w@) == nonempty_lower(
                fields_spec(text@.subrange(0, i as int)).drop_last(),
            ),
        decreases text.len() - i,
    {
        let c = text[i];
        let ghost f = fields_spec(text@.subrange(0, i as int));
        proof {
            assert(text@.subrange(0, i + 1).drop_last() =~= text@.subrange(0, i as int));
        }
        if is_alphanumeric(c) && !is_decimal(c) && c != '_' {
            cur.push(c);
            proof {
                let f2 = fields_spec(text@.subrange(0, i + 1));
                assert(f2.drop_last() =~= f.drop_last());
            }
        } else {
            if cur.len() > 0 {
                let w = lower_chars(&cur);
                words.push(w);
            }
            proof {
                let f2 = fields_spec(text@.subrange(0, i + 1));
                assert(f2.drop_last() =~= f);
                assert(f.drop_last().push(f.last()) =~= f);
                assert(words@.map_values(|w: Vec<char>| w@) =~= nonempty_lower(f));
            }
            cur = Vec::new();
        }
        i += 1;
    }
    let ghost f = fields_spec(text@.subrange(0, text.len() as int));
    if cur.len() > 0 {
        let w = lower_chars(&cur);
        words.push(w);
    }
    proof {
        assert(text@.subrange(0, text.len() as int) =~= text@);
        assert(f.drop_last().push(f.last()) =~= f);
        assert(words@.map_values(|w: Vec<char>| w@) =~= nonempty_lower(f));
    }
    words
}

/// Whether `w` is one of `set`.
fn member(w: &Vec<char>, set: &Vec<&'static str>) -> (r: bool)
    ensures
        r == set@.map_values(|s: &str| s@).contains(w@),
{
    let ghost views = set@.map_values(|s: &str| s@);
    let mut i: usize = 0;
    while i < set.len()
        invariant
            i <= set.len(),
            views == set@.map_values(|s: &str| s@),
            forall|j: int| 0 <= j < i ==> views[j] != w@,
        decreases set.len() - i,
    {
        if chars_eq_str(w.as_slice(), set[i]) {
            assert(views[i as int] == w@);
            return true;
        }
        i += 1;
    }
    false
}

/// Stopword hits of language `lang` among `words`.
fn score(words: &Vec<Vec<char>>, lang: usize) -> (r: usize)
    ensures
        r == lang_score(words@.map_values(|w: Vec<char>| w@), lang),
        r <= words.len(),
{
    let set = stopwords(lang);
    let ghost views = words@.map_values(|w: Vec<char>| w@);
    let mut n: usize = 0;
    let mut i: usize = 0;
    while i < words.len()
        invariant
            i <= words.len(),
            set@.map_values(|s: &str| s@) == stopwords_spec(lang),
            views == words@.map_values(|w: Vec<char>| w@),
            n == count_in(views.subrange(0, i as int), stopwords_spec(lang)),
            n <= i,
        decreases words.len() - i,
    {
        proof {
            assert(views.subrange(0, i + 1).drop_last() =~= views.subrange(0, i as int));
        }
        if member(&words[i], &set) {
            n += 1;
        }
        i += 1;
    }
    assert(views.subrange(0, words.len() as int) =~= views);
    n
}

/// How many characters of `s` are non-English diacritics.
fn count_diacritics(s: &[char]) -> (r: usize)
    ensures
        r == count_chars_in(s@, diacritics_spec()),
        r <= s.len(),
{
    let set = chars_of("àâäãáåçéèêëíìîïñóòôöõøúùûüýÿßæœđłşţğıåäö");
    let mut n: usize = 0;
    let mut i: usize = 0;
    while i < s.len()
        invariant
            i <= s.len(),
            set@ == diacritics_spec(),
            n == count_chars_in(s@.subrange(0, i as int), diacritics_spec()),
            n <= i,
        decreases s.len() - i,
    {
        proof {
            assert(s@.subrange(0, i + 1).drop_last() =~= s@.subrange(0, i as int));
        }
        if contains_char(&set, s[i]) {
            n += 1;
        }
        i += 1;
    }
    assert(s@.subrange(0, s.len() as int) =~= s@);
    n
}

/// Best-effort language code for Latin-script text, or `None` when undecided. Requires a clear
/// margin over English function words so ordinary English is never misrouted; short inputs
/// return `None` on purpose.
pub fn guess_latin_language(text: &str) -> (r: Option<&'static str>)
    ensures
        r.is_some() == guess_code_spec(text@).is_some(),
        r matches Some(code) ==> guess_code_spec(text@) == Some(code@),
{
    let cs = chars_of(text);
    match guess_index(&cs) {
        Some(l) => Some(lang_code(l)),
        None => None,
    }
}

fn guess_index(text: &[char]) -> (r: Option<usize>)
    ensures
        r == guess_spec(text@),
        r matches Some(l) ==> l < 7,
{
    let words = words_of(text);
    let ghost wv = words@.map_values(|w: Vec<char>| w@);
    if words.len() < 4 {
        return None;
    }
    let en = score(&words, 0);
    let mut best_lang: usize = 1;
    let mut best: usize = score(&words, 1);
    let mut k: usize = 2;
    while k <= 6
        invariant
            2 <= k <= 7,
            wv == words@.map_values(|w: Vec<char>| w@),
            (best_lang, best as nat) == best_lang_upto(wv, (k - 1) as usize),
            1 <= best_lang < 7,
        decreases 7 - k,
    {
        let s = score(&words, k);
        if s > best {
            best_lang = k;
            best = s;
        }
        k += 1;
    }
    let lowered = lower_chars(text);
    let diac = count_diacritics(&lowered);
    let n: usize = if lowered.len() == 0 { 1 } else { lowered.len() };
    let diac_w: u128 = diac as u128;
    let n_w: u128 = n as u128;
    if best == 0 && diac_w * 50 < n_w {
        return if en > 0 { Some(0) } else { None };
    }
    if best >= 2 && (best as u128) >= (en as u128) + 2 {
        return Some(best_lang);
    }
    if diac_w * 25 >= n_w && best >= en {
        return Some(best_lang);
    }
    if en > 0 { Some(0) } else { None }
}

// ---------------------------------------------------------------------------------------------
// Detection.
// ---------------------------------------------------------------------------------------------

/// Detection result for a state. Shares of letters are exact counts here: a script's fraction
/// is its count over `letters`, and the non-Latin fraction is `1 - latin_letters / letters`.
#[derive(Debug, Clone)]
pub struct Detection {
    /// Dominant script: `latin`, `han`, `devanagari`, … or `unknown` when there are no letters.
    pub script: String,
    /// Letters per detected script (see [`profile_spec`]).
    pub script_profile: Vec<(String, usize)>,
    /// Letters of every detected script together.
    pub letters: usize,
    /// Latin letters among them.
    pub latin_letters: usize,
    /// Best-effort language code for Latin-script text.
    pub language: Option<String>,
    pub is_english: bool,
}

/// Whether detection calls the text English: an unknown script (no letters) counts as English,
/// a non-Latin script does not, and Latin text does unless the guess names another language.
pub open spec fn english_spec(text: Seq<char>) -> bool {
    let script = detect_script_spec(text);
    if script == "unknown"@ {
        true
    } else if script != "latin"@ {
        false
    } else {
        match guess_code_spec(text) {
            None => true,
            Some(code) => code == "en"@,
        }
    }
}

/// The language detection reports: a guess only for Latin-script text.
pub open spec fn language_spec(text: Seq<char>) -> Option<Seq<char>> {
    if detect_script_spec(text) == "latin"@ {
        guess_code_spec(text)
    } else {
        None
    }
}

/// The detection of a state.
pub open spec fn detection_matches(d: Detection, state: State) -> bool {
    let text = state_text_spec(state);
    let (es, latin) = script_counts_spec(text);
    &&& d.script@ == detect_script_spec(text)
    &&& d.script_profile@.map_values(|p: (String, usize)| (p.0@, p.1)) == profile_spec(text)
    &&& d.letters == count_sum(es) + latin
    &&& d.latin_letters == latin
    &&& d.language.is_some() == language_spec(text).is_some()
    &&& (d.language matches Some(l) ==> language_spec(text) == Some(l@))
    &&& d.is_english == english_spec(text)
}

/// Full detection result for a state.
pub fn analyse(state: &State) -> (r: Detection)
    ensures
        detection_matches(r, *state),
        (r.script@ == "unknown"@) <==> r.script_profile@.len() == 0,
        r.latin_letters <= r.letters,
{
    let text_s = state_text(state);
    let text = chars_of(text_s.as_str());
    proof {
        lemma_state_text_len(*state);
        lemma_profile_empty(text@);
    }
    let profile = profile_of(&text);
    let script = detect_script_chars(&text);
    let (counts, latin) = script_counts(&text);
    let others = total_of(&counts, text.len());
    let letters = others + latin;
    if chars_eq_str_static(script, "unknown") {
        proof {
            reveal_strlit("unknown");
            reveal_strlit("latin");
            assert("unknown"@.len() != "latin"@.len());
        }
        return Detection {
            script: script.to_owned(),
            script_profile: profile,
            letters,
            latin_letters: latin,
            language: None,
            is_english: true,
        };
    }
    if !chars_eq_str_static(script, "latin") {
        return Detection {
            script: script.to_owned(),
            script_profile: profile,
            letters,
            latin_letters: latin,
            language: None,
            is_english: false,
        };
    }
    let language = match guess_index(&text) {
        Some(l) => Some(lang_code(l)),
        None => None,
    };
    let is_english = match language {
        None => true,
        Some(code) => chars_eq_str_static(code, "en"),
    };
    Detection {
        script: "latin".to_owned(),
        script_profile: profile,
        letters,
        latin_letters: latin,
        language: match language {
            Some(code) => Some(code.to_owned()),
            None => None,
        },
        is_english,
    }
}

/// Whether two strings hold the same characters.
fn chars_eq_str_static(a: &str, b: &str) -> (r: bool)
    ensures
        r == (a@ == b@),
{
    let ac = chars_of(a);
    chars_eq_str(&ac, b)
}

/// True when the English checkpoint can be expected to read this state.
pub fn is_english(state: &State) -> (r: bool)
    ensures
        r == english_spec(state_text_spec(*state)),
{
    analyse(state).is_english
}

} // verus!
