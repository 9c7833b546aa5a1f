//! Text normalisation: every punctuation variant is mapped to a small ASCII
//! set, and what is neither Japanese, Latin, Greek nor canonical punctuation
//! is dropped.

use vstd::prelude::*;
use crate::chars::{chars_to_string, str_to_chars};

verus! {

/// The phonemes of Chinese.
pub const ZH_SYMBOLS: [&'static str; 65] = [
    "E", "En", "a", "ai", "an", "ang", "ao", "b", "c", "ch", "d", "e", "ei", "en", "eng", "er",
    "f", "g", "h", "i", "i0", "ia", "ian", "iang", "iao", "ie", "in", "ing", "iong", "ir",
    "iu", "j", "k", "l", "m", "n", "o", "ong", "ou", "p", "q", "r", "s", "sh", "t", "u", "ua",
    "uai", "uan", "uang", "ui", "un", "uo", "v", "van", "ve", "vn", "w", "x", "y", "z", "zh",
    "AA", "EE", "OO",
];

/// The phonemes of Japanese.
pub const JP_SYMBOLS: [&'static str; 42] = [
    "N", "a", "a:", "b", "by", "ch", "d", "dy", "e", "e:", "f", "g", "gy", "h", "hy", "i",
    "i:", "j", "k", "ky", "m", "my", "n", "ny", "o", "o:", "p", "py", "q", "r", "ry", "s",
    "sh", "t", "ts", "ty", "u", "u:", "w", "y", "z", "zy",
];

/// The phonemes of English.
pub const EN_SYMBOLS: [&'static str; 39] = [
    "aa", "ae", "ah", "ao", "aw", "ay", "b", "ch", "d", "dh", "eh", "er", "ey", "f", "g", "hh",
    "ih", "iy", "jh", "k", "l", "m", "n", "ng", "ow", "oy", "p", "r", "s", "sh", "t", "th",
    "uh", "uw", "V", "w", "y", "z", "zh",
];

/// The canonical punctuation symbols.
pub const PUNCTUATIONS: [&'static str; 7] = [
    "!", "?", "…", ",", ".", "'", "-",
];

/// The canonical punctuation symbols, the space and the unknown symbol.
pub const PUNCTUATION_SYMBOLS: [&'static str; 9] = [
    "!", "?", "…", ",", ".", "'", "-", "SP", "UNK",
];

/// The symbol that pads a sentence.
pub const PAD: &'static str = "_";

/// The phonemes of the three languages, each once, in byte order.
pub const NORMAL_SYMBOLS: [&'static str; 102] = [
    "AA", "E", "EE", "En", "N", "OO", "V", "a", "a:", "aa", "ae", "ah", "ai", "an", "ang",
    "ao", "aw", "ay", "b", "by", "c", "ch", "d", "dh", "dy", "e", "e:", "eh", "ei", "en",
    "eng", "er", "ey", "f", "g", "gy", "h", "hh", "hy", "i", "i0", "i:", "ia", "ian", "iang",
    "iao", "ie", "ih", "in", "ing", "iong", "ir", "iu", "iy", "j", "jh", "k", "ky", "l", "m",
    "my", "n", "ng", "ny", "o", "o:", "ong", "ou", "ow", "oy", "p", "py", "q", "r", "ry", "s",
    "sh", "t", "th", "ts", "ty", "u", "u:", "ua", "uai", "uan", "uang", "uh", "ui", "un", "uo",
    "uw", "v", "van", "ve", "vn", "w", "x", "y", "z", "zh", "zy",
];

/// All symbols: the pad, the phonemes, then the punctuation symbols. The
/// place of a symbol in this list is its number.
pub const SYMBOLS: [&'static str; 112] = [
    "_", "AA", "E", "EE", "En", "N", "OO", "V", "a", "a:", "aa", "ae", "ah", "ai", "an", "ang",
    "ao", "aw", "ay", "b", "by", "c", "ch", "d", "dh", "dy", "e", "e:", "eh", "ei", "en",
    "eng", "er", "ey", "f", "g", "gy", "h", "hh", "hy", "i", "i0", "i:", "ia", "ian", "iang",
    "iao", "ie", "ih", "in", "ing", "iong", "ir", "iu", "iy", "j", "jh", "k", "ky", "l", "m",
    "my", "n", "ng", "ny", "o", "o:", "ong", "ou", "ow", "oy", "p", "py", "q", "r", "ry", "s",
    "sh", "t", "th", "ts", "ty", "u", "u:", "ua", "uai", "uan", "uang", "uh", "ui", "un", "uo",
    "uw", "v", "van", "ve", "vn", "w", "x", "y", "z", "zh", "zy", "!", "?", "…", ",", ".", "'",
    "-", "SP", "UNK",
];

/// The long-vowel mark that the wave dashes are unified to.
pub const LONG_MARK: char = 'ー';

/// The three wave-dash characters.
pub open spec fn is_wave_dash(c: char) -> bool {
    c == '~' || c == '～' || c == '〜'
}

/// A wave dash becomes the long-vowel mark; any other character stays.
pub open spec fn unify_wave_dash(c: char) -> char {
    if is_wave_dash(c) {
        'ー'
    } else {
        c
    }
}

/// The one-character entries of the substitution table: the canonical
/// character that `c` is rewritten to, if the table has `c`.
pub open spec fn canonical_of(c: char) -> Option<char> {
    if c == '：' || c == '；' || c == '，' || c == '·' || c == '・' || c == '、' {
        Some(',')
    } else if c == '。' || c == '\n' || c == '．' || c == '$' {
        Some('.')
    } else if c == '！' {
        Some('!')
    } else if c == '？' {
        Some('?')
    } else if c == '“' || c == '”' || c == '"' || c == '‘' || c == '’' || c == '（' || c == '）'
        || c == '(' || c == ')' || c == '《' || c == '》' || c == '【' || c == '】' || c == '['
        || c == ']' || c == '「' || c == '」' {
        Some('\'')
    } else if c == '\u{02d7}' || c == '\u{2010}' || c == '\u{2012}' || c == '\u{2013}' || c
        == '\u{2014}' || c == '\u{2015}' || c == '\u{2043}' || c == '\u{2212}' || c == '\u{23af}'
        || c == '\u{23e4}' || c == '\u{2500}' || c == '\u{2501}' || c == '\u{2e3a}' || c
        == '\u{2e3b}' {
        Some('-')
    } else {
        None
    }
}

/// What one character is rewritten to when no three-character entry applies:
/// the ellipsis becomes three full stops, a character of the table its
/// canonical character, any other character itself.
pub open spec fn replacement(c: char) -> Seq<char> {
    if c == '…' {
        seq!['.', '.', '.']
    } else {
        match canonical_of(c) {
            Some(d) => seq![d],
            None => seq![c],
        }
    }
}

/// Whether `s` begins with one of the two three-character entries of the
/// table, three middle dots of either width.
pub open spec fn starts_with_dots(s: Seq<char>) -> bool {
    s.len() >= 3 && ((s[0] == '·' && s[1] == '·' && s[2] == '·') || (s[0] == '・' && s[1] == '・'
        && s[2] == '・'))
}

/// The substitution table applied to `s` from left to right, the
/// three-character entries before the one-character entries.
pub open spec fn substitute(s: Seq<char>) -> Seq<char>
    decreases s.len(),
{
    if s.len() == 0 {
        Seq::empty()
    } else if starts_with_dots(s) {
        seq!['.', '.', '.'] + substitute(s.skip(3))
    } else {
        replacement(s[0]) + substitute(s.skip(1))
    }
}

/// The seven canonical punctuation characters.
pub open spec fn is_punctuation_char(c: char) -> bool {
    c == '!' || c == '?' || c == '…' || c == ',' || c == '.' || c == '\'' || c == '-'
}

/// Whether `s` is exactly one canonical punctuation symbol.
pub open spec fn is_punctuation(s: Seq<char>) -> bool {
    s.len() == 1 && is_punctuation_char(s[0])
}

/// Each of `PUNCTUATIONS` is a canonical punctuation symbol.
pub proof fn lemma_punctuations_listed()
    ensures
        forall|i: int| 0 <= i < PUNCTUATIONS@.len() ==> is_punctuation(#[trigger] PUNCTUATIONS@[i]@),
{
    reveal_strlit("!");
    reveal_strlit("?");
    reveal_strlit("…");
    reveal_strlit(",");
    reveal_strlit(".");
    reveal_strlit("'");
    reveal_strlit("-");
    assert(is_punctuation(PUNCTUATIONS@[0]@));
    assert(is_punctuation(PUNCTUATIONS@[1]@));
    assert(is_punctuation(PUNCTUATIONS@[2]@));
    assert(is_punctuation(PUNCTUATIONS@[3]@));
    assert(is_punctuation(PUNCTUATIONS@[4]@));
    assert(is_punctuation(PUNCTUATIONS@[5]@));
    assert(is_punctuation(PUNCTUATIONS@[6]@));
}

/// The characters that survive normalisation: hiragana, katakana, CJK
/// ideographs and the iteration mark, Latin letters of either width, Greek,
/// and the canonical punctuation.
pub open spec fn is_kept(c: char) -> bool {
    let u = c as u32;
    ||| 0x3040 <= u <= 0x309F
    ||| 0x30A0 <= u <= 0x30FF
    ||| 0x4E00 <= u <= 0x9FFF
    ||| 0x3400 <= u <= 0x4DBF
    ||| u == 0x3005
    ||| 0x0041 <= u <= 0x005A
    ||| 0x0061 <= u <= 0x007A
    ||| 0xFF21 <= u <= 0xFF3A
    ||| 0xFF41 <= u <= 0xFF5A
    ||| 0x0370 <= u <= 0x03FF
    ||| 0x1F00 <= u <= 0x1FFF
    ||| is_punctuation_char(c)
}

/// `s` without the characters that are not kept.
pub open spec fn keep_only(s: Seq<char>) -> Seq<char> {
    s.filter(|c: char| is_kept(c))
}

/// Substitution, then deletion.
pub open spec fn punctuation_replaced(s: Seq<char>) -> Seq<char> {
    keep_only(substitute(s))
}

/// Wave dashes unified, then substitution, then deletion.
pub open spec fn normalized(s: Seq<char>) -> Seq<char> {
    punctuation_replaced(s.map_values(|c: char| unify_wave_dash(c)))
}

/// A character that normalisation leaves alone wherever it stands: it is
/// kept, and no entry of the table begins with it.
pub open spec fn is_settled(c: char) -> bool {
    is_kept(c) && c != '…' && canonical_of(c) is None
}

/// Whether every character of `s` is settled.
pub open spec fn all_settled(s: Seq<char>) -> bool {
    forall|i: int| 0 <= i < s.len() ==> is_settled(#[trigger] s[i])
}

/// Whether no entry of the substitution table begins with `c`.
pub open spec fn is_final(c: char) -> bool {
    c != '…' && canonical_of(c) is None
}

/// No entry of the substitution table writes a character that an entry
/// reads: the order in which the entries are applied does not matter.
pub proof fn lemma_replacement_is_final(c: char)
    ensures
        forall|i: int| 0 <= i < replacement(c).len() ==> is_final(#[trigger] replacement(c)[i]),
{
}

/// A substituted text holds no character that the table would rewrite.
pub proof fn lemma_substitute_is_final(s: Seq<char>)
    ensures
        forall|i: int| 0 <= i < substitute(s).len() ==> is_final(#[trigger] substitute(s)[i]),
    decreases s.len(),
{
    if s.len() == 0 {
    } else if starts_with_dots(s) {
        lemma_substitute_is_final(s.skip(3));
        let tail = substitute(s.skip(3));
        assert forall|i: int| 0 <= i < substitute(s).len() implies is_final(
            #[trigger] substitute(s)[i],
        ) by {
            if i >= 3 {
                assert(substitute(s)[i] == tail[i - 3]);
            }
        }
    } else {
        lemma_substitute_is_final(s.skip(1));
        lemma_replacement_is_final(s[0]);
        let head = replacement(s[0]);
        let tail = substitute(s.skip(1));
        assert forall|i: int| 0 <= i < substitute(s).len() implies is_final(
            #[trigger] substitute(s)[i],
        ) by {
            if i < head.len() {
                assert(substitute(s)[i] == head[i]);
            } else {
                assert(substitute(s)[i] == tail[i - head.len()]);
            }
        }
    }
}

/// Substitution leaves a text of characters that the table does not rewrite
/// as it is.
pub proof fn lemma_substitute_fixes_final(s: Seq<char>)
    requires
        forall|i: int| 0 <= i < s.len() ==> is_final(#[trigger] s[i]),
    ensures
        substitute(s) == s,
    decreases s.len(),
{
    if s.len() > 0 {
        assert(is_final(s[0]));
        assert(!starts_with_dots(s));
        let rest = s.skip(1);
        assert forall|i: int| 0 <= i < rest.len() implies is_final(#[trigger] rest[i]) by {
            assert(rest[i] == s[i + 1]);
        }
        lemma_substitute_fixes_final(rest);
        assert(seq![s[0]] + rest == s);
    }
}

/// Substituting twice gives what substituting once gives.
pub proof fn lemma_substitute_idempotent(s: Seq<char>)
    ensures
        substitute(substitute(s)) == substitute(s),
{
    lemma_substitute_is_final(s);
    lemma_substitute_fixes_final(substitute(s));
}

/// Deletion leaves a text of kept characters as it is.
pub proof fn lemma_keep_only_fixes_kept(s: Seq<char>)
    requires
        forall|i: int| 0 <= i < s.len() ==> is_kept(#[trigger] s[i]),
    ensures
        keep_only(s) == s,
    decreases s.len(),
{
    reveal(Seq::filter);
    if s.len() > 0 {
        let front = s.drop_last();
        assert forall|i: int| 0 <= i < front.len() implies is_kept(#[trigger] front[i]) by {
            assert(front[i] == s[i]);
        }
        lemma_keep_only_fixes_kept(front);
        assert(is_kept(s.last()));
        assert(front.push(s.last()) == s);
    }
}

/// Every character of a text after substitution and deletion is settled.
pub proof fn lemma_punctuation_replaced_settled(s: Seq<char>)
    ensures
        all_settled(punctuation_replaced(s)),
{
    let sub = substitute(s);
    let pred = |c: char| is_kept(c);
    let out = sub.filter(pred);
    lemma_substitute_is_final(s);
    assert forall|i: int| 0 <= i < out.len() implies is_settled(#[trigger] out[i]) by {
        sub.lemma_filter_pred(pred, i);
        assert(out.contains(out[i]));
        sub.lemma_filter_contains_rev(pred, out[i]);
        let j = choose|j: int| 0 <= j < sub.len() && sub[j] == out[i];
        assert(is_final(sub[j]));
    }
}

/// A text of settled characters is its own normal form.
pub proof fn lemma_settled_is_normal(s: Seq<char>)
    requires
        all_settled(s),
    ensures
        punctuation_replaced(s) == s,
        normalized(s) == s,
{
    assert forall|i: int| 0 <= i < s.len() implies is_final(#[trigger] s[i]) && is_kept(s[i]) by {
        assert(is_settled(s[i]));
    }
    lemma_substitute_fixes_final(s);
    lemma_keep_only_fixes_kept(s);
    let unified = s.map_values(|c: char| unify_wave_dash(c));
    assert(unified =~= s) by {
        assert forall|i: int| 0 <= i < s.len() implies unified[i] == s[i] by {
            assert(is_settled(s[i]));
        }
    }
}

/// Normalising twice gives what normalising once gives, for every text; and
/// so does rewriting the punctuation twice.
pub proof fn lemma_normalize_idempotent(text: Seq<char>)
    ensures
        normalized(normalized(text)) == normalized(text),
        punctuation_replaced(punctuation_replaced(text)) == punctuation_replaced(text),
        all_settled(normalized(text)),
{
    lemma_punctuation_replaced_settled(text.map_values(|c: char| unify_wave_dash(c)));
    lemma_settled_is_normal(normalized(text));
    lemma_punctuation_replaced_settled(text);
    lemma_settled_is_normal(punctuation_replaced(text));
}

/// A text that holds only hiragana, katakana, ideographs, letters and the
/// ASCII punctuation `! ? , . ' -` is already normal.
pub proof fn lemma_canonical_text_is_normal(text: Seq<char>)
    requires
        forall|i: int| 0 <= i < text.len() ==> is_kept(#[trigger] text[i]) && text[i] != '…'
            && text[i] != '・',
    ensures
        normalized(text) == text,
{
    assert forall|i: int| 0 <= i < text.len() implies is_settled(#[trigger] text[i]) by {
        assert(is_kept(text[i]));
    }
    lemma_settled_is_normal(text);
}

pub fn is_punctuation_char_exec(c: char) -> (b: bool)
    ensures
        b == is_punctuation_char(c),
{
    c == '!' || c == '?' || c == '…' || c == ',' || c == '.' || c == '\'' || c == '-'
}

/// Whether the characters `s` are exactly one canonical punctuation symbol.
pub fn is_punctuation_exec(s: &Vec<char>) -> (b: bool)
    ensures
        b == is_punctuation(s@),
{
    s.len() == 1 && is_punctuation_char_exec(s[0])
}

fn is_kept_exec(c: char) -> (b: bool)
    ensures
        b == is_kept(c),
{
    let u: u32 = c as u32;
    (0x3040 <= u && u <= 0x309F) || (0x30A0 <= u && u <= 0x30FF) || (0x4E00 <= u && u <= 0x9FFF)
        || (0x3400 <= u && u <= 0x4DBF) || u == 0x3005 || (0x0041 <= u && u <= 0x005A) || (0x0061
        <= u && u <= 0x007A) || (0xFF21 <= u && u <= 0xFF3A) || (0xFF41 <= u && u <= 0xFF5A) || (
    0x0370 <= u && u <= 0x03FF) || (0x1F00 <= u && u <= 0x1FFF) || is_punctuation_char_exec(c)
}

fn canonical_of_exec(c: char) -> (r: Option<char>)
    ensures
        r == canonical_of(c),
{
    if c == '：' || c == '；' || c == '，' || c == '·' || c == '・' || c == '、' {
        Some(',')
    } else if c == '。' || c == '\n' || c == '．' || c == '$' {
        Some('.')
    } else if c == '！' {
        Some('!')
    } else if c == '？' {
        Some('?')
    } else if c == '“' || c == '”' || c == '"' || c == '‘' || c == '’' || c == '（' || c == '）'
        || c == '(' || c == ')' || c == '《' || c == '》' || c == '【' || c == '】' || c == '['
        || c == ']' || c == '「' || c == '」' {
        Some('\'')
    } else if c == '\u{02d7}' || c == '\u{2010}' || c == '\u{2012}' || c == '\u{2013}' || c
        == '\u{2014}' || c == '\u{2015}' || c == '\u{2043}' || c == '\u{2212}' || c == '\u{23af}'
        || c == '\u{23e4}' || c == '\u{2500}' || c == '\u{2501}' || c == '\u{2e3a}' || c
        == '\u{2e3b}' {
        Some('-')
    } else {
        None
    }
}

/// The substitution table applied to the characters `s`.
pub fn substitute_chars(s: &Vec<char>) -> (out: Vec<char>)
    ensures
        out@ == substitute(s@),
{
    let mut out: Vec<char> = Vec::new();
    let mut i: usize = 0;
    proof {
        assert(s@.skip(0) == s@);
        assert(Seq::<char>::empty() + substitute(s@) == substitute(s@));
    }
    while i < s.len()
        invariant
            i <= s.len(),
            out@ + substitute(s@.skip(i as int)) == substitute(s@),
        decreases s.len() - i,
    {
        let ghost rest = s@.skip(i as int);
        let c = s[i];
        if s.len() - i >= 3 && ((c == '·' && s[i + 1] == '·' && s[i + 2] == '·') || (c == '・' && s[i
            + 1] == '・' && s[i + 2] == '・')) {
            proof {
                assert(starts_with_dots(rest));
                assert(rest.skip(3) == s@.skip(i + 3));
                assert(out@ + (seq!['.', '.', '.'] + substitute(rest.skip(3))) == (out@ + seq![
                    '.',
                    '.',
                    '.',
                ]) + substitute(rest.skip(3)));
                assert(out@ + seq!['.', '.', '.'] == out@.push('.').push('.').push('.'));
            }
            out.push('.');
            out.push('.');
            out.push('.');
            i += 3;
        } else {
            proof {
                assert(!starts_with_dots(rest));
                assert(rest.skip(1) == s@.skip(i + 1));
                assert(out@ + (replacement(c) + substitute(rest.skip(1))) == (out@ + replacement(
                    c,
                )) + substitute(rest.skip(1)));
            }
            if c == '…' {
                proof {
                    assert(out@ + seq!['.', '.', '.'] == out@.push('.').push('.').push('.'));
                }
                out.push('.');
                out.push('.');
                out.push('.');
            } else {
                match canonical_of_exec(c) {
                    Some(d) => {
                        proof {
                            assert(out@ + seq![d] == out@.push(d));
                        }
                        out.push(d);
                    },
                    None => {
                        proof {
                            assert(out@ + seq![c] == out@.push(c));
                        }
                        out.push(c);
                    },
                }
            }
            i += 1;
        }
    }
    proof {
        assert(s@.skip(s@.len() as int) == Seq::<char>::empty());
        assert(out@ + Seq::<char>::empty() == out@);
    }
    out
}

/// The characters `s` without those that are not kept.
pub fn keep_only_chars(s: &Vec<char>) -> (out: Vec<char>)
    ensures
        out@ == keep_only(s@),
{
    let mut out: Vec<char> = Vec::new();
    let mut i: usize = 0;
    proof {
        reveal(Seq::filter);
        assert(s@.take(0) == Seq::<char>::empty());
    }
    while i < s.len()
        invariant
            i <= s.len(),
            out@ == keep_only(s@.take(i as int)),
        decreases s.len() - i,
    {
        proof {
            reveal(Seq::filter);
            let next = s@.take(i + 1);
            assert(next.drop_last() == s@.take(i as int));
            assert(next.last() == s@[i as int]);
        }
        if is_kept_exec(s[i]) {
            out.push(s[i]);
        }
        i += 1;
    }
    proof {
        assert(s@.take(s@.len() as int) == s@);
    }
    out
}

/// Substitution, then deletion, on characters.
pub fn replace_punctuation_chars(s: &Vec<char>) -> (out: Vec<char>)
    ensures
        out@ == punctuation_replaced(s@),
{
    let substituted = substitute_chars(s);
    keep_only_chars(&substituted)
}

/// Rewrites every punctuation variant of `text` to its canonical character,
/// then drops what is not kept.
pub fn replace_punctuation(text: String) -> (out: String)
    ensures
        out@ == punctuation_replaced(text@),
{
    let chars = str_to_chars(text.as_str());
    let out = replace_punctuation_chars(&chars);
    chars_to_string(&out)
}

/// Normalises `text`: wave dashes become the long-vowel mark, punctuation
/// variants their canonical character, and everything else that is not kept
/// is dropped.
pub fn normalize_text(text: &str) -> (out: String)
    ensures
        out@ == normalized(text@),
{
    let chars = str_to_chars(text);
    let mut unified: Vec<char> = Vec::new();
    let mut i: usize = 0;
    while i < chars.len()
        invariant
            i <= chars.len(),
            unified@ == chars@.take(i as int).map_values(|c: char| unify_wave_dash(c)),
        decreases chars.len() - i,
    {
        let c = chars[i];
        let d = if c == '~' || c == '～' || c == '〜' {
            LONG_MARK
        } else {
            c
        };
        unified.push(d);
        i += 1;
        assert(unified@ == chars@.take(i as int).map_values(|c: char| unify_wave_dash(c)));
    }
    proof {
        assert(chars@.take(chars@.len() as int) == chars@);
    }
    let out = replace_punctuation_chars(&unified);
    chars_to_string(&out)
}

} // verus!
