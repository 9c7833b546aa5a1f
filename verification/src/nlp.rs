//! From phonemes and tones to the numbers that the acoustic model takes.

use vstd::prelude::*;
use crate::chars::{same_chars, str_to_chars, strs};
use crate::norm::SYMBOLS;

verus! {

/// The language number of Japanese.
pub const JAPANESE: i64 = 1;

/// What is added to a tone to get its number.
pub const TONE_START: i64 = 6;

/// The number of the symbol `phone` among the first `n` symbols: its last
/// place there.
pub open spec fn symbol_id_upto(phone: Seq<char>, n: int) -> Option<int>
    decreases n,
{
    if n <= 0 {
        None
    } else if SYMBOLS@[n - 1]@ == phone {
        Some(n - 1)
    } else {
        symbol_id_upto(phone, n - 1)
    }
}

/// The number of the symbol `phone`: its place in `SYMBOLS`.
pub open spec fn symbol_id(phone: Seq<char>) -> Option<int> {
    symbol_id_upto(phone, SYMBOLS@.len() as int)
}

/// The numbers of the phonemes `phones`.
pub open spec fn phone_ids(phones: Seq<Seq<char>>) -> Seq<i64> {
    Seq::new(phones.len(), |i: int| symbol_id(phones[i])->0 as i64)
}

/// The numbers of the tones `tones`.
pub open spec fn tone_ids(tones: Seq<i32>) -> Seq<i64> {
    Seq::new(tones.len(), |i: int| (tones[i] + TONE_START) as i64)
}

/// The language numbers of `n` phonemes of Japanese.
pub open spec fn language_ids(n: nat) -> Seq<i64> {
    Seq::new(n, |i: int| JAPANESE)
}

/// Whether every one of `phones` is a symbol.
pub open spec fn all_symbols(phones: Seq<Seq<char>>) -> bool {
    forall|i: int| 0 <= i < phones.len() ==> symbol_id(#[trigger] phones[i]) is Some
}

/// The symbols as characters.
fn symbol_table() -> (table: Vec<Vec<char>>)
    ensures
        table.len() == SYMBOLS@.len(),
        forall|i: int| 0 <= i < table.len() ==> (#[trigger] table@[i])@ == SYMBOLS@[i]@,
{
    let mut table: Vec<Vec<char>> = Vec::new();
    let mut i: usize = 0;
    while i < SYMBOLS.len()
        invariant
            i <= SYMBOLS@.len(),
            table.len() == i,
            forall|k: int| 0 <= k < i ==> (#[trigger] table@[k])@ == SYMBOLS@[k]@,
        decreases SYMBOLS@.len() - i,
    {
        table.push(str_to_chars(SYMBOLS[i]));
        i += 1;
    }
    table
}

fn lookup(table: &Vec<Vec<char>>, phone: &Vec<char>) -> (r: Option<i64>)
    requires
        table.len() == SYMBOLS@.len(),
        forall|i: int| 0 <= i < table.len() ==> (#[trigger] table@[i])@ == SYMBOLS@[i]@,
    ensures
        match r {
            Some(id) => symbol_id(phone@) == Some(id as int),
            None => symbol_id(phone@) is None,
        },
{
    let mut n: usize = table.len();
    while n > 0
        invariant
            n <= table.len() == SYMBOLS@.len(),
            forall|i: int| 0 <= i < table.len() ==> (#[trigger] table@[i])@ == SYMBOLS@[i]@,
            symbol_id_upto(phone@, n as int) == symbol_id(phone@),
        decreases n,
    {
        assert(table@[n - 1]@ == SYMBOLS@[n - 1]@);
        if same_chars(&table[n - 1], phone) {
            return Some((n - 1) as i64);
        }
        n -= 1;
    }
    None
}

/// The number of the symbol `phone`, if it is a symbol.
pub fn symbol_to_id(phone: &str) -> (r: Option<i64>)
    ensures
        match r {
            Some(id) => symbol_id(phone@) == Some(id as int),
            None => symbol_id(phone@) is None,
        },
{
    let table = symbol_table();
    lookup(&table, &str_to_chars(phone))
}

/// The numbers of the phonemes, the numbers of the tones, and as many
/// language numbers as there are phonemes.
pub fn cleaned_text_to_sequence(cleaned_phones: Vec<String>, tones: Vec<i32>) -> (r: (
    Vec<i64>,
    Vec<i64>,
    Vec<i64>,
))
    requires
        all_symbols(strs(cleaned_phones@)),
    ensures
        r.0@ == phone_ids(strs(cleaned_phones@)),
        r.1@ == tone_ids(tones@),
        r.2@ == language_ids(cleaned_phones@.len()),
{
    let ghost names = strs(cleaned_phones@);
    let table = symbol_table();
    let mut phones: Vec<i64> = Vec::new();
    let mut lang_ids: Vec<i64> = Vec::new();
    let mut i: usize = 0;
    while i < cleaned_phones.len()
        invariant
            i <= cleaned_phones.len(),
            names == strs(cleaned_phones@),
            all_symbols(names),
            table.len() == SYMBOLS@.len(),
            forall|k: int| 0 <= k < table.len() ==> (#[trigger] table@[k])@ == SYMBOLS@[k]@,
            phones@ == phone_ids(names.take(i as int)),
            lang_ids@ == language_ids(i as nat),
        decreases cleaned_phones.len() - i,
    {
        let phone = str_to_chars(cleaned_phones[i].as_str());
        assert(names[i as int] == phone@);
        assert(symbol_id(names[i as int]) is Some);
        let id = match lookup(&table, &phone) {
            Some(id) => id,
            None => 0,
        };
        phones.push(id);
        lang_ids.push(JAPANESE);
        i += 1;
        assert(phones@ =~= phone_ids(names.take(i as int)));
        assert(lang_ids@ =~= language_ids(i as nat));
    }
    assert(names.take(names.len() as int) == names);
    let mut tone_numbers: Vec<i64> = Vec::new();
    let mut k: usize = 0;
    while k < tones.len()
        invariant
            k <= tones.len(),
            tone_numbers@ == tone_ids(tones@.take(k as int)),
        decreases tones.len() - k,
    {
        let t: i64 = tones[k] as i64;
        tone_numbers.push(t + TONE_START);
        k += 1;
        assert(tone_numbers@ =~= tone_ids(tones@.take(k as int)));
    }
    assert(tones@.take(tones@.len() as int) == tones@);
    (phones, tone_numbers, lang_ids)
}

} // verus!
