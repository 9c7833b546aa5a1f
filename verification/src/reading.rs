//! The words of a sentence and their readings, as the feature lines of the
//! morphological analysis give them.

use vstd::prelude::*;
use crate::chars::{chars_to_strings, copy_chars, is_char, lemma_texts_push, one_char, strs, texts};
use crate::error::Error;
use crate::jtalk::JTalkProcess;
use crate::label::{find_char, position_from, slice_of};
use crate::norm::{
    is_punctuation_char,
    is_punctuation_char_exec,
    punctuation_replaced,
    replace_punctuation_chars,
};

verus! {

/// Column `k` of the comma-separated line `s`, counted from the column
/// that starts at `start`.
pub open spec fn column_from(s: Seq<char>, start: int, k: nat) -> Option<Seq<char>>
    decreases k,
{
    match position_from(s, ',', start) {
        None => if k == 0 {
            Some(s.subrange(start, s.len() as int))
        } else {
            None
        },
        Some(p) => if k == 0 {
            Some(s.subrange(start, p))
        } else {
            column_from(s, p + 1, (k - 1) as nat)
        },
    }
}

/// Column `k` of the comma-separated line `s`.
pub open spec fn column(s: Seq<char>, k: nat) -> Option<Seq<char>> {
    column_from(s, 0, k)
}

/// `s` without the apostrophes that mark the accent in a pronunciation.
pub open spec fn without_apostrophe(s: Seq<char>) -> Seq<char> {
    s.filter(|c: char| c != '’')
}

pub open spec fn all_punctuation(s: Seq<char>) -> bool {
    forall|i: int| 0 <= i < s.len() ==> is_punctuation_char(#[trigger] s[i])
}

/// The number of bytes that `c` takes in UTF-8.
pub open spec fn utf8_width(c: char) -> nat {
    if (c as u32) < 0x80 {
        1
    } else if (c as u32) < 0x800 {
        2
    } else if (c as u32) < 0x10000 {
        3
    } else {
        4
    }
}

/// The number of bytes that `s` takes in UTF-8.
pub open spec fn utf8_len(s: Seq<char>) -> nat
    decreases s.len(),
{
    if s.len() == 0 {
        0
    } else {
        utf8_len(s.drop_last()) + utf8_width(s.last())
    }
}

/// The word and the reading that the feature line of a word gives. The
/// word is column 0 with its punctuation replaced; the reading is column 9
/// without apostrophes. The reading `、` stands for the word itself where
/// that is punctuation, and for one `'` for each byte of the word where it
/// is not; the reading `？` stands for `?`. A line with fewer columns, with
/// an empty reading, or with the reading `？` for another word than `?`
/// gives nothing.
pub open spec fn word_reading(line: Seq<char>) -> Option<(Seq<char>, Seq<char>)> {
    match (column(line, 0), column(line, 9)) {
        (Some(surface), Some(pron)) => {
            let yomi = without_apostrophe(pron);
            let word = punctuation_replaced(surface);
            if yomi.len() == 0 {
                None
            } else if yomi == seq!['、'] {
                if all_punctuation(word) {
                    Some((word, word))
                } else if utf8_len(word) <= usize::MAX {
                    Some((word, Seq::new(utf8_len(word), |i: int| '\'')))
                } else {
                    None
                }
            } else if yomi == seq!['？'] {
                if word == seq!['?'] {
                    Some((word, seq!['?']))
                } else {
                    None
                }
            } else {
                Some((word, yomi))
            }
        },
        _ => None,
    }
}

/// The words and the readings of the first `n` lines.
pub open spec fn seq_kata_upto(parsed: Seq<Seq<char>>, n: int) -> Option<
    (Seq<Seq<char>>, Seq<Seq<char>>),
>
    decreases n,
{
    if n <= 0 {
        Some((Seq::empty(), Seq::empty()))
    } else {
        match (seq_kata_upto(parsed, n - 1), word_reading(parsed[n - 1])) {
            (Some((words, kata)), Some((word, yomi))) => Some((words.push(word), kata.push(yomi))),
            _ => None,
        }
    }
}

/// The words and the readings of all lines.
pub open spec fn seq_kata(parsed: Seq<Seq<char>>) -> Option<(Seq<Seq<char>>, Seq<Seq<char>>)> {
    seq_kata_upto(parsed, parsed.len() as int)
}

proof fn lemma_seq_kata_stays_none(parsed: Seq<Seq<char>>, n: int, m: int)
    requires
        0 <= n <= m,
        seq_kata_upto(parsed, n) is None,
    ensures
        seq_kata_upto(parsed, m) is None,
    decreases m - n,
{
    if n < m {
        lemma_seq_kata_stays_none(parsed, n, m - 1);
    }
}

pub proof fn lemma_seq_kata_len(parsed: Seq<Seq<char>>, n: int)
    requires
        0 <= n,
    ensures
        seq_kata_upto(parsed, n) matches Some((words, kata)) ==> words.len() == n && kata.len()
            == n,
    decreases n,
{
    if n > 0 {
        lemma_seq_kata_len(parsed, n - 1);
    }
}

/// Column `k` of the comma-separated line `s`.
pub fn column_exec(s: &Vec<char>, k: usize) -> (r: Option<Vec<char>>)
    ensures
        match r {
            Some(text) => column(s@, k as nat) == Some(text@),
            None => column(s@, k as nat) is None,
        },
{
    let mut start: usize = 0;
    let mut left: usize = k;
    while left > 0
        invariant
            start <= s.len(),
            column_from(s@, start as int, left as nat) == column(s@, k as nat),
        decreases left,
    {
        match find_char(s, ',', start) {
            None => {
                return None;
            },
            Some(p) => {
                start = p + 1;
                left -= 1;
            },
        }
    }
    let end = match find_char(s, ',', start) {
        None => s.len(),
        Some(p) => p,
    };
    Some(slice_of(s, start, end))
}

fn without_apostrophe_exec(s: &Vec<char>) -> (out: Vec<char>)
    ensures
        out@ == without_apostrophe(s@),
{
    let mut out: Vec<char> = Vec::new();
    let mut i: usize = 0;
    proof {
        reveal(Seq::filter);
        assert(s@.take(0) == Seq::<char>::empty());
    }
    while i < s.len()
        invariant
            i <= s.len(),
            out@ == without_apostrophe(s@.take(i as int)),
        decreases s.len() - i,
    {
        proof {
            reveal(Seq::filter);
            let next = s@.take(i + 1);
            assert(next.drop_last() == s@.take(i as int));
            assert(next.last() == s@[i as int]);
        }
        if s[i] != '’' {
            out.push(s[i]);
        }
        i += 1;
    }
    proof {
        assert(s@.take(s@.len() as int) == s@);
    }
    out
}

fn all_punctuation_exec(s: &Vec<char>) -> (b: bool)
    ensures
        b == all_punctuation(s@),
{
    let mut i: usize = 0;
    while i < s.len()
        invariant
            i <= s.len(),
            forall|k: int| 0 <= k < i ==> is_punctuation_char(#[trigger] s@[k]),
        decreases s.len() - i,
    {
        if !is_punctuation_char_exec(s[i]) {
            return false;
        }
        i += 1;
    }
    true
}

proof fn lemma_utf8_len_grows(s: Seq<char>, k: int)
    requires
        0 <= k <= s.len(),
    ensures
        utf8_len(s.take(k)) <= utf8_len(s),
    decreases s.len() - k,
{
    if k == s.len() {
        assert(s.take(k) == s);
    } else {
        lemma_utf8_len_grows(s, k + 1);
        assert(s.take(k + 1).drop_last() == s.take(k));
    }
}

/// The number of bytes that `s` takes in UTF-8, if a `usize` holds it.
fn utf8_len_exec(s: &Vec<char>) -> (r: Option<usize>)
    ensures
        match r {
            Some(n) => n == utf8_len(s@),
            None => utf8_len(s@) > usize::MAX,
        },
{
    let mut n: usize = 0;
    let mut i: usize = 0;
    assert(s@.take(0) == Seq::<char>::empty());
    while i < s.len()
        invariant
            i <= s.len(),
            n == utf8_len(s@.take(i as int)),
        decreases s.len() - i,
    {
        let u: u32 = s[i] as u32;
        let w: usize = if u < 0x80 {
            1
        } else if u < 0x800 {
            2
        } else if u < 0x10000 {
            3
        } else {
            4
        };
        proof {
            assert(s@.take(i + 1).drop_last() == s@.take(i as int));
            assert(s@.take(i + 1).last() == s@[i as int]);
        }
        if n > usize::MAX - w {
            proof {
                lemma_utf8_len_grows(s@, i + 1);
            }
            return None;
        }
        n = n + w;
        i += 1;
    }
    assert(s@.take(s@.len() as int) == s@);
    Some(n)
}

fn repeated(c: char, n: usize) -> (out: Vec<char>)
    ensures
        out@ == Seq::new(n as nat, |i: int| c),
{
    let mut out: Vec<char> = Vec::new();
    let mut i: usize = 0;
    while i < n
        invariant
            i <= n,
            out@ == Seq::new(i as nat, |i: int| c),
        decreases n - i,
    {
        out.push(c);
        i += 1;
        assert(out@ =~= Seq::new(i as nat, |i: int| c));
    }
    out
}

/// The word and the reading that the feature line `line` gives.
pub fn word_reading_exec(line: &Vec<char>) -> (r: Result<(Vec<char>, Vec<char>), Error>)
    ensures
        match r {
            Ok((word, yomi)) => word_reading(line@) == Some((word@, yomi@)),
            Err(e) => word_reading(line@) is None && e is ValueError,
        },
{
    let surface = match column_exec(line, 0) {
        None => {
            return Err(Error::ValueError("Missing word".to_owned()));
        },
        Some(t) => t,
    };
    let pron = match column_exec(line, 9) {
        None => {
            return Err(Error::ValueError("Missing pronunciation".to_owned()));
        },
        Some(t) => t,
    };
    let yomi = without_apostrophe_exec(&pron);
    let word = replace_punctuation_chars(&surface);
    if yomi.len() == 0 {
        return Err(Error::ValueError("Empty yomi".to_owned()));
    }
    if is_char(&yomi, '、') {
        if all_punctuation_exec(&word) {
            let same = copy_chars(&word);
            Ok((word, same))
        } else {
            match utf8_len_exec(&word) {
                None => Err(Error::ValueError("Word too long".to_owned())),
                Some(n) => {
                    let marks = repeated('\'', n);
                    Ok((word, marks))
                },
            }
        }
    } else if is_char(&yomi, '？') {
        if is_char(&word, '?') {
            Ok((word, one_char('?')))
        } else {
            Err(Error::ValueError("Question without question mark".to_owned()))
        }
    } else {
        Ok((word, yomi))
    }
}

impl JTalkProcess {
    /// The words of the sentence and their readings, as characters.
    pub fn seq_kata(&self) -> (r: Result<(Vec<Vec<char>>, Vec<Vec<char>>), Error>)
        ensures
            match r {
                Ok((words, kata)) => seq_kata(texts(self.parsed@)) == Some(
                    (texts(words@), texts(kata@)),
                ) && words.len() == kata.len(),
                Err(e) => seq_kata(texts(self.parsed@)) is None && e is ValueError,
            },
    {
        let ghost lines = texts(self.parsed@);
        let mut words: Vec<Vec<char>> = Vec::new();
        let mut kata: Vec<Vec<char>> = Vec::new();
        let mut i: usize = 0;
        assert(texts(words@) =~= Seq::<Seq<char>>::empty());
        while i < self.parsed.len()
            invariant
                i <= self.parsed.len(),
                lines == texts(self.parsed@),
                words.len() == kata.len(),
                seq_kata_upto(lines, i as int) == Some((texts(words@), texts(kata@))),
            decreases self.parsed.len() - i,
        {
            assert(lines[i as int] == self.parsed@[i as int]@);
            match word_reading_exec(&self.parsed[i]) {
                Err(e) => {
                    proof {
                        assert(seq_kata_upto(lines, i + 1) is None);
                        lemma_seq_kata_stays_none(lines, i + 1, lines.len() as int);
                    }
                    return Err(e);
                },
                Ok((word, yomi)) => {
                    proof {
                        lemma_texts_push(words@, word);
                        lemma_texts_push(kata@, yomi);
                    }
                    words.push(word);
                    kata.push(yomi);
                },
            }
            i += 1;
        }
        Ok((words, kata))
    }

    /// The words of the sentence and their readings.
    pub fn text_to_seq_kata(&self) -> (r: Result<(Vec<String>, Vec<String>), Error>)
        ensures
            match r {
                Ok((seq_text, seq_kata_)) => seq_kata(texts(self.parsed@)) == Some(
                    (strs(seq_text@), strs(seq_kata_@)),
                ),
                Err(e) => seq_kata(texts(self.parsed@)) is None && e is ValueError,
            },
    {
        let (words, kata) = self.seq_kata()?;
        Ok((chars_to_strings(&words), chars_to_strings(&kata)))
    }
}

} // verus!
