//! The prosody of a sentence: from the labels of its phonemes to the
//! phonemes with their tones.

use vstd::prelude::*;
use crate::chars::{copy_chars, is_char, lemma_texts_push, one_char, texts};
use crate::error::Error;
use crate::jtalk::JTalkProcess;
use crate::tones::fixed_tones;
use crate::label::{feature, label_phoneme, numeric_feature, phoneme, Field};

verus! {

/// The `len` characters of `hay` from position `k` on.
pub open spec fn piece(hay: Seq<char>, k: int, len: nat) -> Seq<char> {
    hay.subrange(k, k + len)
}

/// Whether `needle` stands somewhere in `hay`, as one piece.
pub open spec fn is_infix(needle: Seq<char>, hay: Seq<char>) -> bool {
    exists|k: int|
        0 <= k && k + needle.len() <= hay.len() && #[trigger] piece(hay, k, needle.len())
            == needle
}

/// The unvoiced vowels, which labels write in upper case.
pub open spec fn unvoiced_vowels() -> Seq<char> {
    seq!['A', 'I', 'U', 'E', 'O']
}

/// The phonemes that can end a mora.
pub open spec fn mora_ends() -> Seq<char> {
    seq!['a', 'e', 'i', 'o', 'u', 'A', 'E', 'I', 'O', 'U', 'N', 'c', 'l']
}

pub open spec fn lower_vowel(c: char) -> char {
    if c == 'A' {
        'a'
    } else if c == 'I' {
        'i'
    } else if c == 'U' {
        'u'
    } else if c == 'E' {
        'e'
    } else if c == 'O' {
        'o'
    } else {
        c
    }
}

/// The phoneme `p` with an unvoiced vowel written in lower case.
pub open spec fn voiced(p: Seq<char>) -> Seq<char> {
    if is_infix(p, unvoiced_vowels()) {
        p.map_values(|c: char| lower_vowel(c))
    } else {
        p
    }
}

/// The mark that follows the phoneme `p`: `#` where an accent phrase ends,
/// `]` where the pitch falls, `[` where it rises, nothing elsewhere.
pub open spec fn accent_mark(p: Seq<char>, a1: int, a2: int, a3: int, f1: int, a2_next: int) -> Seq<
    Seq<char>,
> {
    if a3 == 1 && a2_next == 1 && is_infix(p, mora_ends()) {
        seq![seq!['#']]
    } else if a1 == 0 && a2_next == a2 + 1 && a2 != f1 {
        seq![seq![']']]
    } else if a2 == 1 && a2_next == 2 {
        seq![seq!['[']]
    } else {
        Seq::empty()
    }
}

/// The tokens that label `i` gives. Silence is `^` at the start and, at the
/// end, `$` or `?` for a question; a pause is `_`; any other phoneme is
/// itself, with its accent mark behind it. No tokens come from silence in
/// the middle, from a label without a phoneme or with a field that is no
/// number, nor from a last label that is not silence.
pub open spec fn label_tokens(labels: Seq<Seq<char>>, i: int) -> Option<Seq<Seq<char>>> {
    match phoneme(labels[i]) {
        None => None,
        Some(raw) => {
            let p = voiced(raw);
            if p == seq!['s', 'i', 'l'] {
                if i == 0 {
                    Some(seq![seq!['^']])
                } else if i == labels.len() - 1 {
                    match feature(labels[i], Field::E3) {
                        None => None,
                        Some(e3) => if e3 == 0 {
                            Some(seq![seq!['$']])
                        } else if e3 == 1 {
                            Some(seq![seq!['?']])
                        } else {
                            Some(Seq::empty())
                        },
                    }
                } else {
                    None
                }
            } else if p == seq!['p', 'a', 'u'] {
                Some(seq![seq!['_']])
            } else if i + 1 >= labels.len() {
                None
            } else {
                match (
                    feature(labels[i], Field::A1),
                    feature(labels[i], Field::A2),
                    feature(labels[i], Field::A3),
                    feature(labels[i], Field::F1),
                    feature(labels[i + 1], Field::A2),
                ) {
                    (Some(a1), Some(a2), Some(a3), Some(f1), Some(a2_next)) => Some(
                        seq![p] + accent_mark(p, a1, a2, a3, f1, a2_next),
                    ),
                    _ => None,
                }
            }
        },
    }
}

/// The tokens of the first `n` labels.
pub open spec fn prosody_upto(labels: Seq<Seq<char>>, n: int) -> Option<Seq<Seq<char>>>
    decreases n,
{
    if n <= 0 {
        Some(Seq::empty())
    } else {
        match (prosody_upto(labels, n - 1), label_tokens(labels, n - 1)) {
            (Some(before), Some(here)) => Some(before + here),
            _ => None,
        }
    }
}

/// The tokens of all labels.
pub open spec fn prosody(labels: Seq<Seq<char>>) -> Option<Seq<Seq<char>>> {
    prosody_upto(labels, labels.len() as int)
}

/// A token that closes an accent phrase.
pub open spec fn is_boundary(t: Seq<char>) -> bool {
    t == seq!['$'] || t == seq!['?'] || t == seq!['_'] || t == seq!['#']
}

/// A token that closes the sentence.
pub open spec fn is_end(t: Seq<char>) -> bool {
    t == seq!['$'] || t == seq!['?']
}

/// Where the walk over the tokens stands: the phonemes of the closed
/// phrases with their tones, those of the open phrase, and the tone now.
pub ghost struct Toning {
    pub phones: Seq<Seq<char>>,
    pub tones: Seq<i32>,
    pub phrase_phones: Seq<Seq<char>>,
    pub phrase_tones: Seq<i32>,
    pub tone: int,
}

/// One step of the walk, over token `i`.
pub open spec fn toning_step(st: Toning, tokens: Seq<Seq<char>>, i: int) -> Option<Toning> {
    let t = tokens[i];
    if t == seq!['^'] {
        if i == 0 {
            Some(st)
        } else {
            None
        }
    } else if is_boundary(t) {
        match fixed_tones(st.phrase_tones) {
            None => None,
            Some(fixed) => if is_end(t) && i != tokens.len() - 1 {
                None
            } else {
                Some(
                    Toning {
                        phones: st.phones + st.phrase_phones,
                        tones: st.tones + fixed,
                        phrase_phones: Seq::empty(),
                        phrase_tones: Seq::empty(),
                        tone: 0,
                    },
                )
            },
        }
    } else if t == seq!['['] {
        if st.tone + 1 > i32::MAX {
            None
        } else {
            Some(Toning { tone: st.tone + 1, ..st })
        }
    } else if t == seq![']'] {
        if st.tone - 1 < i32::MIN {
            None
        } else {
            Some(Toning { tone: st.tone - 1, ..st })
        }
    } else {
        Some(
            Toning {
                phrase_phones: st.phrase_phones.push(
                    if t == seq!['c', 'l'] {
                        seq!['q']
                    } else {
                        t
                    },
                ),
                phrase_tones: st.phrase_tones.push(st.tone as i32),
                ..st
            },
        )
    }
}

/// The walk over the first `n` tokens.
pub open spec fn toning_upto(tokens: Seq<Seq<char>>, n: int) -> Option<Toning>
    decreases n,
{
    if n <= 0 {
        Some(
            Toning {
                phones: Seq::empty(),
                tones: Seq::empty(),
                phrase_phones: Seq::empty(),
                phrase_tones: Seq::empty(),
                tone: 0,
            },
        )
    } else {
        match toning_upto(tokens, n - 1) {
            None => None,
            Some(st) => toning_step(st, tokens, n - 1),
        }
    }
}

/// The phonemes of the closed accent phrases with their tones. What
/// follows the last boundary is left out.
pub open spec fn toned(tokens: Seq<Seq<char>>) -> Option<(Seq<Seq<char>>, Seq<i32>)> {
    match toning_upto(tokens, tokens.len() as int) {
        None => None,
        Some(st) => Some((st.phones, st.tones)),
    }
}

proof fn lemma_prosody_stays_none(labels: Seq<Seq<char>>, n: int, m: int)
    requires
        0 <= n <= m,
        prosody_upto(labels, n) is None,
    ensures
        prosody_upto(labels, m) is None,
    decreases m - n,
{
    if n < m {
        lemma_prosody_stays_none(labels, n, m - 1);
    }
}

proof fn lemma_toning_stays_none(tokens: Seq<Seq<char>>, n: int, m: int)
    requires
        0 <= n <= m,
        toning_upto(tokens, n) is None,
    ensures
        toning_upto(tokens, m) is None,
    decreases m - n,
{
    if n < m {
        lemma_toning_stays_none(tokens, n, m - 1);
    }
}

/// Whether the characters `needle` stand somewhere in `hay`, as one piece.
pub fn is_infix_exec(needle: &Vec<char>, hay: &Vec<char>) -> (b: bool)
    ensures
        b == is_infix(needle@, hay@),
{
    if needle.len() > hay.len() {
        return false;
    }
    let mut k: usize = 0;
    while hay.len() - k >= needle.len()
        invariant
            k <= hay.len(),
            needle.len() <= hay.len(),
            forall|j: int| 0 <= j < k ==> #[trigger] piece(hay@, j, needle@.len()) != needle@,
        decreases hay.len() - k,
    {
        let mut same = true;
        let mut d: usize = 0;
        while d < needle.len()
            invariant
                d <= needle.len(),
                k + needle.len() <= hay.len(),
                d == 0 ==> same,
                same ==> hay@.subrange(k as int, k + d) == needle@.take(d as int),
                !same ==> piece(hay@, k as int, needle@.len()) != needle@,
            decreases needle.len() - d,
        {
            if hay[k + d] != needle[d] {
                proof {
                    let here = piece(hay@, k as int, needle@.len());
                    assert(here[d as int] == hay@[k + d]);
                }
                same = false;
            }
            d += 1;
            proof {
                if same {
                    assert(hay@.subrange(k as int, k + d) =~= needle@.take(d as int));
                }
            }
        }
        if same {
            assert(needle@.take(needle@.len() as int) == needle@);
            assert(piece(hay@, k as int, needle@.len()) == needle@);
            return true;
        }
        k += 1;
    }
    false
}

/// The phoneme `p` with an unvoiced vowel written in lower case.
pub fn voiced_exec(p: Vec<char>) -> (out: Vec<char>)
    ensures
        out@ == voiced(p@),
{
    let vowels: Vec<char> = vec!['A', 'I', 'U', 'E', 'O'];
    assert(vowels@ =~= unvoiced_vowels());
    if !is_infix_exec(&p, &vowels) {
        return p;
    }
    let mut out: Vec<char> = Vec::new();
    let mut i: usize = 0;
    while i < p.len()
        invariant
            i <= p.len(),
            out@ == p@.take(i as int).map_values(|c: char| lower_vowel(c)),
        decreases p.len() - i,
    {
        let c = p[i];
        let d = if c == 'A' {
            'a'
        } else if c == 'I' {
            'i'
        } else if c == 'U' {
            'u'
        } else if c == 'E' {
            'e'
        } else if c == 'O' {
            'o'
        } else {
            c
        };
        out.push(d);
        i += 1;
        assert(out@ =~= p@.take(i as int).map_values(|c: char| lower_vowel(c)));
    }
    assert(p@.take(p@.len() as int) == p@);
    out
}

fn is_sil(p: &Vec<char>) -> (b: bool)
    ensures
        b == (p@ == seq!['s', 'i', 'l']),
{
    let b = p.len() == 3 && p[0] == 's' && p[1] == 'i' && p[2] == 'l';
    proof {
        if b {
            assert(p@ =~= seq!['s', 'i', 'l']);
        }
    }
    b
}

fn is_pau(p: &Vec<char>) -> (b: bool)
    ensures
        b == (p@ == seq!['p', 'a', 'u']),
{
    let b = p.len() == 3 && p[0] == 'p' && p[1] == 'a' && p[2] == 'u';
    proof {
        if b {
            assert(p@ =~= seq!['p', 'a', 'u']);
        }
    }
    b
}

fn is_cl(p: &Vec<char>) -> (b: bool)
    ensures
        b == (p@ == seq!['c', 'l']),
{
    let b = p.len() == 2 && p[0] == 'c' && p[1] == 'l';
    proof {
        if b {
            assert(p@ =~= seq!['c', 'l']);
        }
    }
    b
}

/// The error of a label that cannot be read: it has no phoneme, a field
/// that is no number, or silence where none belongs.
fn malformed() -> (e: Error)
    ensures
        e matches Error::ValueError(message) && message@ == "Malformed label"@,
{
    Error::ValueError("Malformed label".to_owned())
}

/// Appends the tokens of label `i` to `out`.
fn push_label_tokens(labels: &Vec<Vec<char>>, i: usize, out: &mut Vec<Vec<char>>) -> (r: Result<
    (),
    Error,
>)
    requires
        i < labels.len(),
    ensures
        match r {
            Ok(_) => label_tokens(texts(labels@), i as int) matches Some(here) && texts(
                final(out)@,
            ) == texts(old(out)@) + here,
            Err(e) => label_tokens(texts(labels@), i as int) is None && e is ValueError,
        },
{
    let ghost all = texts(labels@);
    let ghost before = texts(out@);
    let label = &labels[i];
    assert(all[i as int] == label@);
    let raw = match label_phoneme(label) {
        None => {
            return Err(malformed());
        },
        Some(raw) => raw,
    };
    let p = voiced_exec(raw);
    if is_sil(&p) {
        if i == 0 {
            let token = one_char('^');
            proof {
                lemma_texts_push(out@, token);
                assert(before + seq![seq!['^']] =~= before.push(seq!['^']));
            }
            out.push(token);
            return Ok(());
        } else if i == labels.len() - 1 {
            match numeric_feature(label, Field::E3) {
                None => {
                    return Err(malformed());
                },
                Some(e3) => {
                    if e3 == 0 {
                        let token = one_char('$');
                        proof {
                            lemma_texts_push(out@, token);
                            assert(before + seq![seq!['$']] =~= before.push(seq!['$']));
                        }
                        out.push(token);
                    } else if e3 == 1 {
                        let token = one_char('?');
                        proof {
                            lemma_texts_push(out@, token);
                            assert(before + seq![seq!['?']] =~= before.push(seq!['?']));
                        }
                        out.push(token);
                    } else {
                        assert(before + Seq::<Seq<char>>::empty() =~= before);
                    }
                    return Ok(());
                },
            }
        } else {
            return Err(malformed());
        }
    }
    if is_pau(&p) {
        let token = one_char('_');
        proof {
            lemma_texts_push(out@, token);
            assert(before + seq![seq!['_']] =~= before.push(seq!['_']));
        }
        out.push(token);
        return Ok(());
    }
    if labels.len() - i <= 1 {
        return Err(malformed());
    }
    assert(all[i + 1] == labels@[i + 1]@);
    let a1 = match numeric_feature(label, Field::A1) {
        None => {
            return Err(malformed());
        },
        Some(v) => v,
    };
    let a2 = match numeric_feature(label, Field::A2) {
        None => {
            return Err(malformed());
        },
        Some(v) => v,
    };
    let a3 = match numeric_feature(label, Field::A3) {
        None => {
            return Err(malformed());
        },
        Some(v) => v,
    };
    let f1 = match numeric_feature(label, Field::F1) {
        None => {
            return Err(malformed());
        },
        Some(v) => v,
    };
    let a2_next = match numeric_feature(&labels[i + 1], Field::A2) {
        None => {
            return Err(malformed());
        },
        Some(v) => v,
    };
    let ends: Vec<char> = vec!['a', 'e', 'i', 'o', 'u', 'A', 'E', 'I', 'O', 'U', 'N', 'c', 'l'];
    assert(ends@ =~= mora_ends());
    let ghost pv = p@;
    let mark: Option<char> = if a3 == 1 && a2_next == 1 && is_infix_exec(&p, &ends) {
        Some('#')
    } else if a1 == 0 && a2 < i32::MAX && a2_next == a2 + 1 && a2 != f1 {
        Some(']')
    } else if a2 == 1 && a2_next == 2 {
        Some('[')
    } else {
        None
    };
    proof {
        lemma_texts_push(out@, p);
    }
    out.push(p);
    match mark {
        Some(c) => {
            let token = one_char(c);
            proof {
                lemma_texts_push(out@, token);
                assert(before + (seq![pv] + seq![seq![c]]) =~= before.push(pv).push(seq![c]));
            }
            out.push(token);
        },
        None => {
            assert(before + (seq![pv] + Seq::<Seq<char>>::empty()) =~= before.push(pv));
        },
    }
    Ok(())
}

impl JTalkProcess {
    /// The prosody tokens of the sentence: its phonemes, with the marks of
    /// phrase boundaries, pauses, and rises and falls of the pitch between
    /// them.
    pub fn g2p_prosody(&self) -> (r: Result<Vec<Vec<char>>, Error>)
        ensures
            match r {
                Ok(tokens) => prosody(texts(self.labels@)) == Some(texts(tokens@)),
                Err(e) => prosody(texts(self.labels@)) is None && e is ValueError,
            },
    {
        let ghost all = texts(self.labels@);
        let mut out: Vec<Vec<char>> = Vec::new();
        let mut i: usize = 0;
        assert(texts(out@) =~= Seq::<Seq<char>>::empty());
        while i < self.labels.len()
            invariant
                i <= self.labels.len(),
                all == texts(self.labels@),
                prosody_upto(all, i as int) == Some(texts(out@)),
            decreases self.labels.len() - i,
        {
            match push_label_tokens(&self.labels, i, &mut out) {
                Ok(_) => {},
                Err(e) => {
                    proof {
                        assert(prosody_upto(all, i + 1) is None);
                        lemma_prosody_stays_none(all, i + 1, all.len() as int);
                    }
                    return Err(e);
                },
            }
            i += 1;
        }
        Ok(out)
    }

    /// The phonemes of the closed accent phrases of `prosodies`, with their
    /// tones.
    pub fn phone_tones(prosodies: &Vec<Vec<char>>) -> (r: Result<(Vec<Vec<char>>, Vec<i32>), Error>)
        ensures
            match r {
                Ok((phones, tones)) => toned(texts(prosodies@)) == Some((texts(phones@), tones@))
                    && phones.len() == tones.len(),
                Err(e) => toned(texts(prosodies@)) is None && e is ValueError,
            },
    {
        let ghost tokens = texts(prosodies@);
        let mut phones: Vec<Vec<char>> = Vec::new();
        let mut tones: Vec<i32> = Vec::new();
        let mut phrase_phones: Vec<Vec<char>> = Vec::new();
        let mut phrase_tones: Vec<i32> = Vec::new();
        let mut tone: i32 = 0;
        let mut i: usize = 0;
        assert(texts(phones@) =~= Seq::<Seq<char>>::empty());
        while i < prosodies.len()
            invariant
                i <= prosodies.len(),
                tokens == texts(prosodies@),
                phones.len() == tones.len(),
                phrase_phones.len() == phrase_tones.len(),
                toning_upto(tokens, i as int) == Some(
                    Toning {
                        phones: texts(phones@),
                        tones: tones@,
                        phrase_phones: texts(phrase_phones@),
                        phrase_tones: phrase_tones@,
                        tone: tone as int,
                    },
                ),
            decreases prosodies.len() - i,
        {
            let letter = &prosodies[i];
            assert(tokens[i as int] == letter@);
            let ghost st = toning_upto(tokens, i as int)->0;
            if is_char(letter, '^') {
                if i != 0 {
                    proof {
                        assert(toning_upto(tokens, i + 1) is None);
                        lemma_toning_stays_none(tokens, i + 1, tokens.len() as int);
                    }
                    return Err(Error::ValueError("Misplaced start of sentence".to_owned()));
                }
            } else if is_char(letter, '$') || is_char(letter, '?') || is_char(letter, '_')
                || is_char(letter, '#') {
                let fixed = match JTalkProcess::fix_phone_tone(&phrase_tones) {
                    Ok(fixed) => fixed,
                    Err(e) => {
                        proof {
                            assert(toning_upto(tokens, i + 1) is None);
                            lemma_toning_stays_none(tokens, i + 1, tokens.len() as int);
                        }
                        return Err(e);
                    },
                };
                if (is_char(letter, '$') || is_char(letter, '?')) && i != prosodies.len() - 1 {
                    proof {
                        assert(toning_upto(tokens, i + 1) is None);
                        lemma_toning_stays_none(tokens, i + 1, tokens.len() as int);
                    }
                    return Err(Error::ValueError("Misplaced end of sentence".to_owned()));
                }
                proof {
                    lemma_fixed_len(phrase_tones@);
                    lemma_texts_add(phones@, phrase_phones@);
                }
                let mut fixed = fixed;
                phones.append(&mut phrase_phones);
                tones.append(&mut fixed);
                phrase_tones = Vec::new();
                tone = 0;
                assert(texts(phrase_phones@) =~= Seq::<Seq<char>>::empty());
            } else if is_char(letter, '[') {
                if tone == i32::MAX {
                    proof {
                        assert(toning_upto(tokens, i + 1) is None);
                        lemma_toning_stays_none(tokens, i + 1, tokens.len() as int);
                    }
                    return Err(Error::ValueError("Tone out of range".to_owned()));
                }
                tone = tone + 1;
            } else if is_char(letter, ']') {
                if tone == i32::MIN {
                    proof {
                        assert(toning_upto(tokens, i + 1) is None);
                        lemma_toning_stays_none(tokens, i + 1, tokens.len() as int);
                    }
                    return Err(Error::ValueError("Tone out of range".to_owned()));
                }
                tone = tone - 1;
            } else {
                let new_letter = if is_cl(letter) {
                    one_char('q')
                } else {
                    copy_chars(letter)
                };
                proof {
                    lemma_texts_push(phrase_phones@, new_letter);
                }
                phrase_phones.push(new_letter);
                phrase_tones.push(tone);
            }
            i += 1;
        }
        Ok((phones, tones))
    }

    /// The phonemes of the sentence that carry a tone, with their tones.
    pub fn g2phone_tone_wo_punct(&self) -> (r: Result<(Vec<Vec<char>>, Vec<i32>), Error>)
        ensures
            match r {
                Ok((phones, tones)) => prosody(texts(self.labels@)) matches Some(tokens) && toned(
                    tokens,
                ) == Some((texts(phones@), tones@)) && phones.len() == tones.len(),
                Err(e) => e is ValueError && match prosody(texts(self.labels@)) {
                    None => true,
                    Some(tokens) => toned(tokens) is None,
                },
            },
    {
        let prosodies = self.g2p_prosody()?;
        JTalkProcess::phone_tones(&prosodies)
    }
}

proof fn lemma_fixed_len(tones: Seq<i32>)
    ensures
        fixed_tones(tones) matches Some(fixed) ==> fixed.len() == tones.len(),
{
}

/// The phonemes that carry a tone have one tone each.
pub proof fn lemma_toned_len(tokens: Seq<Seq<char>>, n: int)
    ensures
        toning_upto(tokens, n) matches Some(st) ==> st.phones.len() == st.tones.len()
            && st.phrase_phones.len() == st.phrase_tones.len(),
    decreases n,
{
    if n > 0 {
        lemma_toned_len(tokens, n - 1);
        match toning_upto(tokens, n - 1) {
            Some(st) => {
                lemma_fixed_len(st.phrase_tones);
            },
            None => {},
        }
    }
}

pub proof fn lemma_texts_add(a: Seq<Vec<char>>, b: Seq<Vec<char>>)
    ensures
        texts(a + b) == texts(a) + texts(b),
{
    assert(texts(a + b) =~= texts(a) + texts(b));
}

} // verus!
