//! From a reading in katakana to its phonemes.

use vstd::prelude::*;
use crate::chars::{
    chars_to_string,
    copy_chars,
    is_char,
    lemma_nested_texts_push,
    lemma_texts_push,
    nested_texts,
    one_char,
    texts,
};
use crate::error::Error;
use crate::jtalk::JTalkProcess;
use crate::mora::{chars_texts, is_vowel, is_vowel_exec, MoraChars, MoraText};
use crate::norm::{is_punctuation, is_punctuation_exec, LONG_MARK};

verus! {

/// The `len` characters of `s` from position `i` on.
pub open spec fn part(s: Seq<char>, i: int, len: nat) -> Seq<char> {
    s.subrange(i, i + len)
}

/// Whether the kana of `m` stand at position `i` of `s`.
pub open spec fn matches_at(m: MoraText, s: Seq<char>, i: int) -> bool {
    m.mora.len() > 0 && 0 <= i && i + m.mora.len() <= s.len() && part(s, i, m.mora.len())
        == m.mora
}

/// The mora, among the first `n` of `table`, that stands at position `i`
/// of `s` and is the longest that does; of two equally long ones the later.
pub open spec fn best_upto(table: Seq<MoraText>, s: Seq<char>, i: int, n: int) -> Option<int>
    decreases n,
{
    if n <= 0 {
        None
    } else {
        let before = best_upto(table, s, i, n - 1);
        if matches_at(table[n - 1], s, i) && (match before {
            None => true,
            Some(k) => table[n - 1].mora.len() >= table[k].mora.len(),
        }) {
            Some(n - 1)
        } else {
            before
        }
    }
}

/// The longest mora of `table` that stands at position `i` of `s`.
pub open spec fn best_match(table: Seq<MoraText>, s: Seq<char>, i: int) -> Option<int> {
    best_upto(table, s, i, table.len() as int)
}

/// The phonemes of a mora: its consonant, if it has one, and its vowel.
pub open spec fn mora_phonemes(m: MoraText) -> Seq<Seq<char>> {
    match m.consonant {
        Some(c) => seq![c, m.vowel],
        None => seq![m.vowel],
    }
}

/// The phonemes that a mora opens with: its consonant, if it has one.
pub open spec fn mora_onset(m: MoraText) -> Seq<Seq<char>> {
    match m.consonant {
        Some(c) => seq![c],
        None => Seq::empty(),
    }
}

/// The open phoneme as a list: the phoneme, if there is one.
pub open spec fn closed(open: Option<Seq<char>>) -> Seq<Seq<char>> {
    match open {
        Some(phoneme) => seq![phoneme],
        None => Seq::empty(),
    }
}

/// The open phoneme with the character `c` joined to it.
pub open spec fn joined_to(open: Option<Seq<char>>, c: char) -> Seq<char> {
    match open {
        Some(phoneme) => phoneme.push(c),
        None => seq![c],
    }
}

/// The phonemes of `s` from position `i` on, where `open` is the phoneme
/// that was read last and can still grow.
///
/// The longest mora that stands at a position closes the open phoneme and
/// is read as its consonant, if it has one, and its vowel, which is then
/// open. A long-vowel mark behind an open phoneme that is not empty closes
/// it and opens a phoneme of its last character. Any other character is
/// joined to the open phoneme, so that `カa` is read `k`, `aa`; so is a mark
/// that has no phoneme before it.
///
/// Three things are decided here for readings that hold more than kana and
/// marks. A mark repeats the last character of the phoneme before it
/// whatever that character is, a letter or not. White space is a character
/// like any other: it is joined, it separates nothing, and none is taken
/// off the ends. And the vowel of the last mora is a phoneme even where
/// the table has it empty.
pub open spec fn kana_tokens(
    table: Seq<MoraText>,
    s: Seq<char>,
    i: int,
    open: Option<Seq<char>>,
) -> Seq<Seq<char>>
    decreases s.len() - i,
{
    if i < 0 || i >= s.len() {
        closed(open)
    } else {
        match best_match(table, s, i) {
            Some(k) => if 0 <= k < table.len() && 0 < table[k].mora.len() <= s.len() - i {
                closed(open) + mora_onset(table[k]) + kana_tokens(
                    table,
                    s,
                    i + table[k].mora.len(),
                    Some(table[k].vowel),
                )
            } else {
                closed(open)
            },
            None => match open {
                Some(phoneme) => if s[i] == 'ー' && phoneme.len() > 0 {
                    seq![phoneme] + kana_tokens(table, s, i + 1, Some(seq![phoneme.last()]))
                } else {
                    kana_tokens(table, s, i + 1, Some(phoneme.push(s[i])))
                },
                None => kana_tokens(table, s, i + 1, Some(seq![s[i]])),
            },
        }
    }
}

pub open spec fn is_katakana(c: char) -> bool {
    0x30A0 <= c as u32 <= 0x30FF
}

pub open spec fn has_katakana(s: Seq<char>) -> bool {
    exists|i: int| 0 <= i < s.len() && is_katakana(#[trigger] s[i])
}

/// The phonemes of the reading `text`: a punctuation symbol is its own
/// phoneme; a text without any katakana has none; any other text is read
/// from its first character on, as `kana_tokens` says.
pub open spec fn reading_phonemes(table: Seq<MoraText>, text: Seq<char>) -> Option<Seq<Seq<char>>> {
    if is_punctuation(text) {
        Some(seq![text])
    } else if !has_katakana(text) {
        None
    } else {
        Some(kana_tokens(table, text, 0, None))
    }
}

/// The message of the error for the reading `text`, which holds no
/// katakana: it names the reading.
pub open spec fn not_katakana(text: Seq<char>) -> Seq<char> {
    "Input must be katakana only: "@ + text
}

/// The phonemes of the first `n` phonemes of `word` with their long-vowel
/// marks resolved. A mark becomes the last character of the phoneme before
/// it. Before the first phoneme of a word stands the last phoneme of the
/// word before, `prev`, if that is a vowel; a mark with nothing before it
/// stays.
pub open spec fn resolved_upto(word: Seq<Seq<char>>, prev: Seq<Seq<char>>, n: int) -> Seq<
    Seq<char>,
>
    decreases n,
{
    if n <= 0 {
        Seq::empty()
    } else {
        let done = resolved_upto(word, prev, n - 1);
        let before = if n - 1 == 0 {
            if prev.len() > 0 && is_vowel(prev.last()) {
                prev.last()
            } else {
                Seq::empty()
            }
        } else {
            done.last()
        };
        done.push(
            if word[n - 1] == seq!['ー'] && before.len() > 0 {
                seq![before.last()]
            } else {
                word[n - 1]
            },
        )
    }
}

/// The first `n` of `words` with their long-vowel marks resolved, each
/// word after the one before it.
pub open spec fn long_handled_upto(words: Seq<Seq<Seq<char>>>, n: int) -> Seq<Seq<Seq<char>>>
    decreases n,
{
    if n <= 0 {
        Seq::empty()
    } else {
        let done = long_handled_upto(words, n - 1);
        let prev = if done.len() > 0 {
            done.last()
        } else {
            Seq::empty()
        };
        done.push(resolved_upto(words[n - 1], prev, words[n - 1].len() as int))
    }
}

/// All `words` with their long-vowel marks resolved.
pub open spec fn long_handled(words: Seq<Seq<Seq<char>>>) -> Seq<Seq<Seq<char>>> {
    long_handled_upto(words, words.len() as int)
}

/// The longest match is a match, and no mora that stands at the same
/// position is longer: a mora of two kana is never read as its first kana
/// with the second left over.
pub proof fn lemma_best_is_longest(table: Seq<MoraText>, s: Seq<char>, i: int, n: int)
    requires
        0 <= n <= table.len(),
    ensures
        match best_upto(table, s, i, n) {
            Some(k) => 0 <= k < n && matches_at(table[k], s, i) && forall|j: int|
                0 <= j < n && matches_at(#[trigger] table[j], s, i) ==> table[j].mora.len()
                    <= table[k].mora.len(),
            None => forall|j: int| 0 <= j < n ==> !matches_at(#[trigger] table[j], s, i),
        },
    decreases n,
{
    if n > 0 {
        lemma_best_is_longest(table, s, i, n - 1);
    }
}

/// A reading that is one mora of the table is read as the phonemes of that
/// mora, whatever shorter moras the table holds beside it.
pub proof fn lemma_whole_mora(table: Seq<MoraText>, s: Seq<char>, j: int)
    requires
        0 <= j < table.len(),
        table[j].mora == s,
        s.len() > 0,
    ensures
        exists|k: int|
            0 <= k < table.len() && (#[trigger] table[k]).mora == s && kana_tokens(
                table,
                s,
                0,
                None,
            ) == mora_phonemes(table[k]),
{
    lemma_best_is_longest(table, s, 0, table.len() as int);
    assert(part(s, 0, s.len()) == s);
    assert(matches_at(table[j], s, 0));
    let k = best_match(table, s, 0)->0;
    assert(table[j].mora.len() <= table[k].mora.len());
    assert(table[k].mora.len() == s.len());
    assert(table[k].mora == s);
    let vowel = table[k].vowel;
    assert(kana_tokens(table, s, s.len() as int, Some(vowel)) == seq![vowel]);
    assert(closed(None::<Seq<char>>) + mora_onset(table[k]) + seq![vowel] =~= mora_phonemes(
        table[k],
    ));
}

pub proof fn lemma_resolved_len(word: Seq<Seq<char>>, prev: Seq<Seq<char>>, n: int)
    requires
        0 <= n,
    ensures
        resolved_upto(word, prev, n).len() == n,
    decreases n,
{
    if n > 0 {
        lemma_resolved_len(word, prev, n - 1);
    }
}

pub proof fn lemma_long_handled_len(words: Seq<Seq<Seq<char>>>, n: int)
    requires
        0 <= n <= words.len(),
    ensures
        long_handled_upto(words, n).len() == n,
        forall|k: int|
            0 <= k < n ==> (#[trigger] long_handled_upto(words, n)[k]).len() == words[k].len(),
    decreases n,
{
    if n > 0 {
        lemma_long_handled_len(words, n - 1);
        let done = long_handled_upto(words, n - 1);
        let prev = if done.len() > 0 {
            done.last()
        } else {
            Seq::empty()
        };
        lemma_resolved_len(words[n - 1], prev, words[n - 1].len() as int);
        assert forall|k: int| 0 <= k < n implies (#[trigger] long_handled_upto(words, n)[k]).len()
            == words[k].len() by {
            if k < n - 1 {
                assert(long_handled_upto(words, n)[k] == done[k]);
            }
        }
    }
}

/// The open phoneme as text.
pub open spec fn open_text(open: Option<Vec<char>>) -> Option<Seq<char>> {
    match open {
        Some(phoneme) => Some(phoneme@),
        None => None,
    }
}

fn matches_at_exec(m: &MoraChars, s: &Vec<char>, i: usize) -> (b: bool)
    requires
        i < s.len(),
    ensures
        b == matches_at(m@, s@, i as int),
{
    let len = m.mora.len();
    if len == 0 || s.len() - i < len {
        return false;
    }
    let mut d: usize = 0;
    while d < len
        invariant
            d <= len == m.mora.len(),
            i + len <= s.len(),
            s@.subrange(i as int, i + d) == m.mora@.take(d as int),
        decreases len - d,
    {
        if s[i + d] != m.mora[d] {
            proof {
                let here = part(s@, i as int, len as nat);
                assert(here[d as int] == s@[i + d]);
            }
            return false;
        }
        d += 1;
        assert(s@.subrange(i as int, i + d) =~= m.mora@.take(d as int));
    }
    assert(m.mora@.take(len as int) == m.mora@);
    true
}

fn find_best(table: &Vec<MoraChars>, s: &Vec<char>, i: usize) -> (r: Option<usize>)
    requires
        i < s.len(),
    ensures
        match r {
            Some(k) => best_match(chars_texts(table@), s@, i as int) == Some(k as int) && k
                < table.len() && 0 < table@[k as int].mora.len() <= s.len() - i,
            None => best_match(chars_texts(table@), s@, i as int) is None,
        },
{
    let ghost tv = chars_texts(table@);
    let mut best: Option<usize> = None;
    let mut n: usize = 0;
    while n < table.len()
        invariant
            n <= table.len(),
            i < s.len(),
            tv == chars_texts(table@),
            match best {
                Some(k) => best_upto(tv, s@, i as int, n as int) == Some(k as int) && k < n && 0
                    < table@[k as int].mora.len() <= s.len() - i,
                None => best_upto(tv, s@, i as int, n as int) is None,
            },
        decreases table.len() - n,
    {
        assert(tv[n as int] == table@[n as int]@);
        if matches_at_exec(&table[n], s, i) {
            let longer = match best {
                None => true,
                Some(k) => {
                    assert(tv[k as int] == table@[k as int]@);
                    table[n].mora.len() >= table[k].mora.len()
                },
            };
            if longer {
                best = Some(n);
            }
        }
        n += 1;
    }
    best
}

impl JTalkProcess {
    /// The phonemes of the reading `text`, read with the moras of `table`.
    /// A reading that is no punctuation symbol and holds no katakana is
    /// refused, with an error that names it.
    pub fn kata_to_phoneme_list(text: &Vec<char>, table: &Vec<MoraChars>) -> (r: Result<
        Vec<Vec<char>>,
        Error,
    >)
        ensures
            match r {
                Ok(phonemes) => reading_phonemes(chars_texts(table@), text@) == Some(
                    texts(phonemes@),
                ),
                Err(e) => reading_phonemes(chars_texts(table@), text@) is None && (e
                    matches Error::ValueError(message) && message@ == not_katakana(text@)),
            },
    {
        let ghost tv = chars_texts(table@);
        let mut out: Vec<Vec<char>> = Vec::new();
        if is_punctuation_exec(text) {
            let token = copy_chars(text);
            proof {
                lemma_texts_push(out@, token);
                assert(texts(out@.push(token)) =~= seq![text@]);
            }
            out.push(token);
            return Ok(out);
        }
        let mut found = false;
        let mut j: usize = 0;
        while j < text.len()
            invariant
                j <= text.len(),
                found ==> has_katakana(text@),
                !found ==> forall|k: int| 0 <= k < j ==> !is_katakana(#[trigger] text@[k]),
            decreases text.len() - j,
        {
            let u: u32 = text[j] as u32;
            if 0x30A0 <= u && u <= 0x30FF {
                assert(is_katakana(text@[j as int]));
                found = true;
            }
            j += 1;
        }
        if !found {
            let mut message = "Input must be katakana only: ".to_owned();
            let reading = chars_to_string(text);
            message.append(reading.as_str());
            return Err(Error::ValueError(message));
        }
        let mut i: usize = 0;
        let mut open: Option<Vec<char>> = None;
        proof {
            assert(texts(out@) =~= Seq::<Seq<char>>::empty());
            assert(Seq::<Seq<char>>::empty() + kana_tokens(tv, text@, 0, None) =~= kana_tokens(
                tv,
                text@,
                0,
                None,
            ));
        }
        while i < text.len()
            invariant
                i <= text.len(),
                tv == chars_texts(table@),
                texts(out@) + kana_tokens(tv, text@, i as int, open_text(open)) == kana_tokens(
                    tv,
                    text@,
                    0,
                    None,
                ),
            decreases text.len() - i,
        {
            let ghost so_far = texts(out@);
            let ghost was = open_text(open);
            let taken = open;
            match find_best(table, text, i) {
                Some(k) => {
                    let m = &table[k];
                    assert(tv[k as int] == m@);
                    let ghost rest = kana_tokens(tv, text@, i + m.mora.len(), Some(m.vowel@));
                    match taken {
                        Some(phoneme) => {
                            proof {
                                lemma_texts_push(out@, phoneme);
                            }
                            out.push(phoneme);
                        },
                        None => {},
                    }
                    let ghost with_closed = texts(out@);
                    assert(with_closed =~= so_far + closed(was));
                    match &m.consonant {
                        Some(c) => {
                            let consonant = copy_chars(c);
                            proof {
                                lemma_texts_push(out@, consonant);
                            }
                            out.push(consonant);
                        },
                        None => {},
                    }
                    assert(texts(out@) =~= with_closed + mora_onset(m@));
                    assert(so_far + (closed(was) + mora_onset(m@) + rest) =~= texts(out@) + rest);
                    open = Some(copy_chars(&m.vowel));
                    i += m.mora.len();
                },
                None => {
                    let c = text[i];
                    match taken {
                        Some(phoneme) => {
                            if c == LONG_MARK && phoneme.len() > 0 {
                                let last = phoneme[phoneme.len() - 1];
                                proof {
                                    let rest = kana_tokens(tv, text@, i + 1, Some(seq![last]));
                                    lemma_texts_push(out@, phoneme);
                                    assert(so_far + (seq![phoneme@] + rest) =~= so_far.push(
                                        phoneme@,
                                    ) + rest);
                                }
                                out.push(phoneme);
                                open = Some(one_char(last));
                            } else {
                                let mut grown = phoneme;
                                grown.push(c);
                                open = Some(grown);
                            }
                        },
                        None => {
                            open = Some(one_char(c));
                        },
                    }
                    i += 1;
                },
            }
        }
        match open {
            Some(phoneme) => {
                proof {
                    lemma_texts_push(out@, phoneme);
                    assert(texts(out@) + seq![phoneme@] =~= texts(out@).push(phoneme@));
                }
                out.push(phoneme);
            },
            None => {
                assert(texts(out@) + Seq::<Seq<char>>::empty() =~= texts(out@));
            },
        }
        Ok(out)
    }

    /// Resolves the long-vowel marks of the words `sep_phonemes`.
    pub fn handle_long(sep_phonemes: &Vec<Vec<Vec<char>>>) -> (out: Vec<Vec<Vec<char>>>)
        ensures
            nested_texts(out@) == long_handled(nested_texts(sep_phonemes@)),
    {
        let ghost words = nested_texts(sep_phonemes@);
        let mut out: Vec<Vec<Vec<char>>> = Vec::new();
        let mut i: usize = 0;
        assert(nested_texts(out@) =~= Seq::<Seq<Seq<char>>>::empty());
        while i < sep_phonemes.len()
            invariant
                i <= sep_phonemes.len(),
                words == nested_texts(sep_phonemes@),
                out.len() == i,
                nested_texts(out@) == long_handled_upto(words, i as int),
            decreases sep_phonemes.len() - i,
        {
            let word = &sep_phonemes[i];
            let ghost wv = texts(word@);
            assert(words[i as int] == wv);
            let ghost done = nested_texts(out@);
            let ghost prev = if done.len() > 0 {
                done.last()
            } else {
                Seq::<Seq<char>>::empty()
            };
            let mut fixed: Vec<Vec<char>> = Vec::new();
            let mut e: usize = 0;
            assert(texts(fixed@) =~= Seq::<Seq<char>>::empty());
            while e < word.len()
                invariant
                    e <= word.len(),
                    fixed.len() == e,
                    wv == texts(word@),
                    done == nested_texts(out@),
                    out.len() == i,
                    prev == if done.len() > 0 {
                        done.last()
                    } else {
                        Seq::<Seq<char>>::empty()
                    },
                    texts(fixed@) == resolved_upto(wv, prev, e as int),
                decreases word.len() - e,
            {
                let t = &word[e];
                assert(wv[e as int] == t@);
                let token = if is_char(t, LONG_MARK) {
                    if e == 0 {
                        if i > 0 && out[i - 1].len() > 0 {
                            let last_word = &out[i - 1];
                            let p = &last_word[last_word.len() - 1];
                            proof {
                                assert(done.last() == texts(last_word@));
                                assert(texts(last_word@).last() == p@);
                            }
                            if is_vowel_exec(p) {
                                one_char(p[p.len() - 1])
                            } else {
                                copy_chars(t)
                            }
                        } else {
                            proof {
                                if i > 0 {
                                    assert(done.last() == texts(out@[i - 1]@));
                                }
                            }
                            copy_chars(t)
                        }
                    } else {
                        let p = &fixed[e - 1];
                        assert(texts(fixed@).last() == p@);
                        if p.len() > 0 {
                            one_char(p[p.len() - 1])
                        } else {
                            copy_chars(t)
                        }
                    }
                } else {
                    copy_chars(t)
                };
                proof {
                    lemma_texts_push(fixed@, token);
                }
                fixed.push(token);
                e += 1;
            }
            proof {
                lemma_nested_texts_push(out@, fixed);
            }
            out.push(fixed);
            i += 1;
        }
        out
    }
}

} // verus!
