//! From the words and labels of an analysed sentence to its utterance: its
//! phonemes, their tones, and the number of phonemes of each character.

use vstd::prelude::*;
use crate::align::{
    aligned,
    lemma_agreeing_phonemes_align,
    lemma_aligned_len,
    tone_at,
    unpunctuated,
    Mismatch,
};
use crate::chars::{
    chars_to_strings,
    copy_chars,
    lemma_nested_texts_push,
    lemma_texts_push,
    nested_texts,
    one_char,
    strings_to_chars,
    strs,
    texts,
};
use crate::distribute::{
    lemma_share_bounds,
    lemma_total_add,
    lemma_total_shares,
    lemma_total_update,
    shares,
    total,
};
use crate::error::Error;
use crate::kana::{lemma_long_handled_len, long_handled, reading_phonemes};
use crate::mora::{bundled_moras, bundled_table, chars_texts, MoraChars, MoraText};
use crate::norm::{is_punctuation, PAD};
use crate::prosody::{lemma_texts_add, lemma_toned_len, prosody, toned};
use crate::reading::{lemma_seq_kata_len, seq_kata};

verus! {

/// One analysed sentence: the feature line of each word and the
/// full-context label of each phoneme, both as characters.
pub struct JTalkProcess {
    pub parsed: Vec<Vec<char>>,
    pub labels: Vec<Vec<char>>,
}

/// The phonemes of the first `n` readings.
pub open spec fn readings_upto(table: Seq<MoraText>, kata: Seq<Seq<char>>, n: int) -> Option<
    Seq<Seq<Seq<char>>>,
>
    decreases n,
{
    if n <= 0 {
        Some(Seq::empty())
    } else {
        match (readings_upto(table, kata, n - 1), reading_phonemes(table, kata[n - 1])) {
            (Some(before), Some(here)) => Some(before.push(here)),
            _ => None,
        }
    }
}

/// The first `n` of `parts`, one after the other.
pub open spec fn joined_upto<A>(parts: Seq<Seq<A>>, n: int) -> Seq<A>
    decreases n,
{
    if n <= 0 {
        Seq::empty()
    } else {
        joined_upto(parts, n - 1) + parts[n - 1]
    }
}

/// All `parts`, one after the other.
pub open spec fn joined<A>(parts: Seq<Seq<A>>) -> Seq<A> {
    joined_upto(parts, parts.len() as int)
}

/// The number of phonemes of each character of the first `n` words, where
/// `sep[k]` are the phonemes of `words[k]`. A word without characters
/// cannot take phonemes, and no word has more phonemes than a `usize`
/// counts.
pub open spec fn counts_upto(words: Seq<Seq<char>>, sep: Seq<Seq<Seq<char>>>, n: int) -> Option<
    Seq<usize>,
>
    decreases n,
{
    if n <= 0 {
        Some(Seq::empty())
    } else {
        match counts_upto(words, sep, n - 1) {
            None => None,
            Some(before) => if (words[n - 1].len() == 0 && sep[n - 1].len() > 0) || sep[n
                - 1].len() > usize::MAX {
                None
            } else {
                Some(before + shares(sep[n - 1].len(), words[n - 1].len()))
            },
        }
    }
}

/// The counts with one added to the first, if there is a first.
pub open spec fn head_raised(counts: Seq<usize>) -> Option<Seq<usize>> {
    if counts.len() == 0 {
        Some(counts)
    } else if counts[0] == usize::MAX {
        None
    } else {
        Some(counts.update(0, (counts[0] + 1) as usize))
    }
}

/// What the aligner gives for a sentence.
pub ghost struct Utterance {
    /// The phonemes, between two pads.
    pub phones: Seq<Seq<char>>,
    /// The tone of each phoneme.
    pub tones: Seq<i32>,
    /// The number of phonemes of each character, between two ones.
    pub word2ph: Seq<usize>,
}

/// The symbol that pads a sentence at both ends.
pub open spec fn pad() -> Seq<char> {
    seq!['_']
}

/// The pad is the symbol `PAD`.
pub proof fn lemma_pad_is_listed()
    ensures
        pad() == PAD@,
{
    reveal_strlit("_");
    assert(pad() =~= PAD@);
}

/// The utterance of a sentence with the feature lines `parsed` and the
/// labels `labels`, read with the moras of `table`. The labels give the
/// phonemes that carry a tone. The feature lines give the words and their
/// readings, and the readings their phonemes, long-vowel marks resolved.
/// These phonemes, aligned with those that carry a tone, stand between two
/// pads of tone 0. The phonemes of each word are dealt out to its
/// characters, the first character of the sentence takes one more, and the
/// counts stand between two ones. There is no utterance where one of these
/// steps fails.
pub open spec fn utterance(parsed: Seq<Seq<char>>, labels: Seq<Seq<char>>, table: Seq<MoraText>) -> Option<
    Utterance,
> {
    match prosody(labels) {
        None => None,
        Some(tokens) => match toned(tokens) {
            None => None,
            Some((toned_phones, toned_tones)) => match seq_kata(parsed) {
                None => None,
                Some((words, kata)) => match readings_upto(table, kata, kata.len() as int) {
                    None => None,
                    Some(raw) => {
                        let sep = long_handled(raw);
                        let flat = joined(sep);
                        match aligned(flat, toned_phones, toned_tones) {
                            Err(_) => None,
                            Ok(tones) => match counts_upto(words, sep, words.len() as int) {
                                None => None,
                                Some(counts) => match head_raised(counts) {
                                    None => None,
                                    Some(interior) => Some(
                                        Utterance {
                                            phones: seq![pad()] + flat + seq![pad()],
                                            tones: seq![0i32] + tones + seq![0i32],
                                            word2ph: seq![1usize] + interior + seq![1usize],
                                        },
                                    ),
                                },
                            },
                        }
                    },
                },
            },
        },
    }
}

/// The phoneme on which the alignment of a sentence fails, where that is
/// what keeps the sentence from having an utterance.
pub open spec fn utterance_mismatch(
    parsed: Seq<Seq<char>>,
    labels: Seq<Seq<char>>,
    table: Seq<MoraText>,
) -> Option<Mismatch> {
    match prosody(labels) {
        None => None,
        Some(tokens) => match toned(tokens) {
            None => None,
            Some((toned_phones, toned_tones)) => match seq_kata(parsed) {
                None => None,
                Some((words, kata)) => match readings_upto(table, kata, kata.len() as int) {
                    None => None,
                    Some(raw) => match aligned(
                        joined(long_handled(raw)),
                        toned_phones,
                        toned_tones,
                    ) {
                        Err(m) => Some(m),
                        Ok(_) => None,
                    },
                },
            },
        },
    }
}

/// Whether `e` is the error of a sentence that has no utterance: the
/// phoneme that does not match, with what was expected and the tones given
/// before it, where the alignment fails; a value error in all other cases.
pub open spec fn is_utterance_error(
    e: Error,
    parsed: Seq<Seq<char>>,
    labels: Seq<Seq<char>>,
    table: Seq<MoraText>,
) -> bool {
    match utterance_mismatch(parsed, labels, table) {
        Some(m) => e matches Error::MismatchedPhoneme { phone, expected, aligned } && phone@
            == m.phone && expected@ == m.expected && aligned@ == m.aligned,
        None => e is ValueError,
    }
}

proof fn lemma_readings_stay_none(table: Seq<MoraText>, kata: Seq<Seq<char>>, n: int, m: int)
    requires
        0 <= n <= m,
        readings_upto(table, kata, n) is None,
    ensures
        readings_upto(table, kata, m) is None,
    decreases m - n,
{
    if n < m {
        lemma_readings_stay_none(table, kata, n, m - 1);
    }
}

proof fn lemma_counts_stay_none(words: Seq<Seq<char>>, sep: Seq<Seq<Seq<char>>>, n: int, m: int)
    requires
        0 <= n <= m,
        counts_upto(words, sep, n) is None,
    ensures
        counts_upto(words, sep, m) is None,
    decreases m - n,
{
    if n < m {
        lemma_counts_stay_none(words, sep, n, m - 1);
    }
}

proof fn lemma_readings_len(table: Seq<MoraText>, kata: Seq<Seq<char>>, n: int)
    requires
        0 <= n,
    ensures
        readings_upto(table, kata, n) matches Some(raw) ==> raw.len() == n,
    decreases n,
{
    if n > 0 {
        lemma_readings_len(table, kata, n - 1);
    }
}

proof fn lemma_counts_shape(words: Seq<Seq<char>>, sep: Seq<Seq<Seq<char>>>, n: int)
    requires
        0 <= n <= words.len(),
        n <= sep.len(),
    ensures
        counts_upto(words, sep, n) matches Some(counts) ==> counts.len() == joined_upto(
            words,
            n,
        ).len() && total(counts) == joined_upto(sep, n).len(),
    decreases n,
{
    if n > 0 {
        lemma_counts_shape(words, sep, n - 1);
        match counts_upto(words, sep, n) {
            Some(counts) => {
                let before = counts_upto(words, sep, n - 1)->0;
                let here = shares(sep[n - 1].len(), words[n - 1].len());
                lemma_total_add(before, here);
                assert(sep[n - 1].len() <= usize::MAX);
                if words[n - 1].len() > 0 {
                    lemma_total_shares(sep[n - 1].len(), words[n - 1].len());
                } else {
                    assert(here == Seq::<usize>::empty());
                }
            },
            None => {},
        }
    }
}

/// Of every utterance. It has one count for each character of its words,
/// and one at each end, which is 1. It has as many tones as phonemes; the
/// first and the last phoneme are the pad, with tone 0. The counts add up
/// to the number of phonemes, and to one more where the sentence has a
/// character: the first character takes one more than its share.
pub proof fn lemma_utterance_shape(
    parsed: Seq<Seq<char>>,
    labels: Seq<Seq<char>>,
    table: Seq<MoraText>,
)
    requires
        utterance(parsed, labels, table) is Some,
    ensures
        ({
            let u = utterance(parsed, labels, table)->0;
            let pair = seq_kata(parsed)->0;
            let words = pair.0;
            &&& seq_kata(parsed) is Some
            &&& u.word2ph.len() == joined(words).len() + 2
            &&& u.phones.len() == u.tones.len()
            &&& total(u.word2ph) == u.phones.len() + if u.word2ph.len() > 2 {
                1int
            } else {
                0int
            }
            &&& u.phones.first() == pad() && u.phones.last() == pad()
            &&& u.tones.first() == 0 && u.tones.last() == 0
            &&& u.word2ph.first() == 1 && u.word2ph.last() == 1
        }),
{
    let u = utterance(parsed, labels, table)->0;
    let tokens = prosody(labels)->0;
    let (toned_phones, toned_tones) = toned(tokens)->0;
    let (words, kata) = seq_kata(parsed)->0;
    let raw = readings_upto(table, kata, kata.len() as int)->0;
    let sep = long_handled(raw);
    let flat = joined(sep);
    let tones = aligned(flat, toned_phones, toned_tones)->Ok_0;
    let counts = counts_upto(words, sep, words.len() as int)->0;
    let interior = head_raised(counts)->0;
    lemma_seq_kata_len(parsed, parsed.len() as int);
    lemma_readings_len(table, kata, kata.len() as int);
    lemma_long_handled_len(raw, raw.len() as int);
    lemma_aligned_len(flat, toned_phones, toned_tones, flat.len() as int);
    lemma_counts_shape(words, sep, words.len() as int);
    if counts.len() > 0 {
        assert(interior.len() == counts.len());
        lemma_total_update(counts, (counts[0] + 1) as usize);
    }
    lemma_total_add(seq![1usize], interior);
    lemma_total_add(seq![1usize] + interior, seq![1usize]);
    assert(total(seq![1usize]) == 1) by {
        let one = seq![1usize];
        assert(one.len() == 1);
        assert(one.drop_last() =~= Seq::<usize>::empty());
        assert(total(one.drop_last()) == 0);
        assert(one.last() == 1);
    }
}

/// Whether the two halves of an analysed sentence agree. Its labels and
/// its feature lines can be read, its readings are katakana, a word
/// without characters has no phonemes, and the phonemes of its readings
/// that are no punctuation are the phonemes that its labels give, in their
/// order. The phonemes are fewer than a `usize` counts.
pub open spec fn analysis_agrees(
    parsed: Seq<Seq<char>>,
    labels: Seq<Seq<char>>,
    table: Seq<MoraText>,
) -> bool {
    match prosody(labels) {
        None => false,
        Some(tokens) => match toned(tokens) {
            None => false,
            Some((toned_phones, _)) => match seq_kata(parsed) {
                None => false,
                Some((words, kata)) => match readings_upto(table, kata, kata.len() as int) {
                    None => false,
                    Some(raw) => {
                        let sep = long_handled(raw);
                        &&& unpunctuated(joined(sep)) == toned_phones
                        &&& joined(sep).len() < usize::MAX
                        &&& forall|k: int|
                            0 <= k < words.len() && (#[trigger] words[k]).len() == 0 ==> sep[k].len()
                                == 0
                    },
                },
            },
        },
    }
}

/// The tones that the labels of a sentence give to their phonemes.
pub open spec fn label_tones(labels: Seq<Seq<char>>) -> Seq<i32> {
    match prosody(labels) {
        None => Seq::empty(),
        Some(tokens) => match toned(tokens) {
            None => Seq::empty(),
            Some((_, tones)) => tones,
        },
    }
}

proof fn lemma_counts_exist(words: Seq<Seq<char>>, sep: Seq<Seq<Seq<char>>>, n: int)
    requires
        0 <= n <= words.len(),
        n <= sep.len(),
        joined_upto(sep, n).len() <= usize::MAX,
        forall|k: int| 0 <= k < n && (#[trigger] words[k]).len() == 0 ==> sep[k].len() == 0,
    ensures
        counts_upto(words, sep, n) matches Some(counts) && forall|j: int|
            0 <= j < counts.len() ==> #[trigger] counts[j] <= joined_upto(sep, n).len(),
    decreases n,
{
    if n > 0 {
        lemma_counts_exist(words, sep, n - 1);
        let before = counts_upto(words, sep, n - 1)->0;
        let n_phone = sep[n - 1].len();
        let n_word = words[n - 1].len();
        let here = shares(n_phone, n_word);
        let counts = before + here;
        assert forall|j: int| 0 <= j < counts.len() implies #[trigger] counts[j] <= joined_upto(
            sep,
            n,
        ).len() by {
            if j >= before.len() {
                lemma_share_bounds(n_phone as int, n_word as int, j - before.len());
            }
        }
    }
}

/// A sentence whose two halves agree has an utterance, so no phoneme of
/// it is mismatched. In the utterance each punctuation mark has tone 0,
/// and every other phoneme of the readings has the tone that the labels
/// give to the phoneme of its place among them.
pub proof fn lemma_agreeing_sentence_has_utterance(
    parsed: Seq<Seq<char>>,
    labels: Seq<Seq<char>>,
    table: Seq<MoraText>,
)
    requires
        analysis_agrees(parsed, labels, table),
    ensures
        utterance_mismatch(parsed, labels, table) is None,
        utterance(parsed, labels, table) matches Some(u) && u.tones.len() == u.phones.len()
            && forall|i: int|
            0 < i < u.phones.len() - 1 ==> #[trigger] u.tones[i] == tone_at(
                u.phones.subrange(1, u.phones.len() - 1),
                label_tones(labels),
                i - 1,
            ),
        utterance(parsed, labels, table) matches Some(u) && forall|i: int|
            0 <= i < u.phones.len() && is_punctuation(#[trigger] u.phones[i]) ==> u.tones[i] == 0,
{
    let tokens = prosody(labels)->0;
    let (toned_phones, toned_tones) = toned(tokens)->0;
    let (words, kata) = seq_kata(parsed)->0;
    let raw = readings_upto(table, kata, kata.len() as int)->0;
    let sep = long_handled(raw);
    let flat = joined(sep);
    lemma_toned_len(tokens, tokens.len() as int);
    lemma_agreeing_phonemes_align(flat, toned_phones, toned_tones);
    let tones = aligned(flat, toned_phones, toned_tones)->Ok_0;
    lemma_seq_kata_len(parsed, parsed.len() as int);
    lemma_readings_len(table, kata, kata.len() as int);
    lemma_long_handled_len(raw, raw.len() as int);
    lemma_counts_exist(words, sep, words.len() as int);
    let counts = counts_upto(words, sep, words.len() as int)->0;
    assert(head_raised(counts) is Some);
    let u = utterance(parsed, labels, table)->0;
    assert(u.phones.subrange(1, u.phones.len() - 1) =~= flat);
    assert forall|i: int| 0 < i < u.phones.len() - 1 implies #[trigger] u.tones[i] == tone_at(
        flat,
        toned_tones,
        i - 1,
    ) by {
        assert(u.tones[i] == tones[i - 1]);
    }
    assert forall|i: int| 0 <= i < u.phones.len() && is_punctuation(
        #[trigger] u.phones[i],
    ) implies u.tones[i] == 0 by {
        if 0 < i < u.phones.len() - 1 {
            assert(u.phones[i] == flat[i - 1]);
            assert(u.tones[i] == tone_at(flat, toned_tones, i - 1));
        }
    }
}

impl JTalkProcess {
    /// An analysed sentence, from the feature line of each of its words
    /// and the full-context label of each of its phonemes.
    pub fn new(parsed: Vec<String>, labels: Vec<String>) -> (process: JTalkProcess)
        ensures
            texts(process.parsed@) == strs(parsed@),
            texts(process.labels@) == strs(labels@),
    {
        JTalkProcess { parsed: strings_to_chars(&parsed), labels: strings_to_chars(&labels) }
    }

    /// The utterance of the sentence, read with the moras of `table`.
    #[verifier::loop_isolation(false)]
    pub fn g2p_with(&self, table: &Vec<MoraChars>) -> (r: Result<
        (Vec<Vec<char>>, Vec<i32>, Vec<usize>),
        Error,
    >)
        ensures
            match r {
                Ok((phones, tones, word2ph)) => utterance(
                    texts(self.parsed@),
                    texts(self.labels@),
                    chars_texts(table@),
                ) == Some(Utterance { phones: texts(phones@), tones: tones@, word2ph: word2ph@ }),
                Err(e) => utterance(texts(self.parsed@), texts(self.labels@), chars_texts(table@))
                    is None && is_utterance_error(
                    e,
                    texts(self.parsed@),
                    texts(self.labels@),
                    chars_texts(table@),
                ),
            },
    {
        let ghost tv = chars_texts(table@);
        let (toned_phones, toned_tones) = self.g2phone_tone_wo_punct()?;
        let (words, kata) = self.seq_kata()?;
        let ghost kv = texts(kata@);
        let ghost wv = texts(words@);

        let mut raw: Vec<Vec<Vec<char>>> = Vec::new();
        let mut i: usize = 0;
        assert(nested_texts(raw@) =~= Seq::<Seq<Seq<char>>>::empty());
        while i < kata.len()
            invariant
                i <= kata.len(),
                raw.len() == i,
                kv == texts(kata@),
                tv == chars_texts(table@),
                readings_upto(tv, kv, i as int) == Some(nested_texts(raw@)),
            decreases kata.len() - i,
        {
            assert(kv[i as int] == kata@[i as int]@);
            match JTalkProcess::kata_to_phoneme_list(&kata[i], table) {
                Err(e) => {
                    proof {
                        assert(readings_upto(tv, kv, i + 1) is None);
                        lemma_readings_stay_none(tv, kv, i + 1, kv.len() as int);
                    }
                    return Err(e);
                },
                Ok(phonemes) => {
                    proof {
                        lemma_nested_texts_push(raw@, phonemes);
                    }
                    raw.push(phonemes);
                },
            }
            i += 1;
        }
        let sep = JTalkProcess::handle_long(&raw);
        let ghost sv = nested_texts(sep@);
        proof {
            lemma_long_handled_len(nested_texts(raw@), raw.len() as int);
        }

        let mut flat: Vec<Vec<char>> = Vec::new();
        let mut w: usize = 0;
        assert(texts(flat@) =~= Seq::<Seq<char>>::empty());
        while w < sep.len()
            invariant
                w <= sep.len(),
                sv == nested_texts(sep@),
                texts(flat@) == joined_upto(sv, w as int),
            decreases sep.len() - w,
        {
            let word = &sep[w];
            assert(sv[w as int] == texts(word@));
            let ghost before = texts(flat@);
            let mut e: usize = 0;
            assert(word@.take(0) =~= Seq::<Vec<char>>::empty());
            assert(texts(word@.take(0)) =~= Seq::<Seq<char>>::empty());
            assert(before + Seq::<Seq<char>>::empty() =~= before);
            while e < word.len()
                invariant
                    e <= word.len(),
                    texts(flat@) == before + texts(word@.take(e as int)),
                decreases word.len() - e,
            {
                let token = copy_chars(&word[e]);
                proof {
                    lemma_texts_push(flat@, token);
                    lemma_texts_push(word@.take(e as int), word@[e as int]);
                    assert(word@.take(e + 1) == word@.take(e as int).push(word@[e as int]));
                    assert((before + texts(word@.take(e as int))).push(token@) =~= before + texts(
                        word@.take(e as int),
                    ).push(token@));
                }
                flat.push(token);
                e += 1;
            }
            assert(word@.take(word@.len() as int) == word@);
            w += 1;
        }

        let tones = match JTalkProcess::align_tones(&flat, &toned_phones, &toned_tones) {
            Ok(tones) => tones,
            Err(e) => {
                return Err(e);
            },
        };

        let mut word2ph: Vec<usize> = Vec::new();
        word2ph.push(1);
        let mut k: usize = 0;
        let ghost mut counts: Seq<usize> = Seq::empty();
        assert(word2ph@ =~= seq![1usize] + counts);
        while k < words.len()
            invariant
                k <= words.len(),
                words.len() == sep.len(),
                wv == texts(words@),
                sv == nested_texts(sep@),
                counts_upto(wv, sv, k as int) == Some(counts),
                word2ph@ == seq![1usize] + counts,
            decreases words.len() - k,
        {
            let n_word = words[k].len();
            let n_phone = sep[k].len();
            assert(wv[k as int] == words@[k as int]@);
            assert(sv[k as int] == texts(sep@[k as int]@));
            if n_word == 0 && n_phone > 0 {
                proof {
                    assert(counts_upto(wv, sv, k + 1) is None);
                    lemma_counts_stay_none(wv, sv, k + 1, wv.len() as int);
                }
                return Err(Error::ValueError("Word without characters".to_owned()));
            }
            let mut here = JTalkProcess::distribute_phone(n_phone, n_word);
            proof {
                assert((seq![1usize] + counts) + here@ =~= seq![1usize] + (counts + here@));
                counts = counts + here@;
            }
            word2ph.append(&mut here);
            k += 1;
        }
        if word2ph.len() > 1 {
            if word2ph[1] == usize::MAX {
                return Err(Error::ValueError("Too many phonemes".to_owned()));
            }
            let raised = word2ph[1] + 1;
            word2ph.set(1, raised);
            assert(word2ph@ =~= seq![1usize] + head_raised(counts)->0);
        }
        word2ph.push(1);

        let mut phones: Vec<Vec<char>> = Vec::new();
        phones.push(one_char('_'));
        let mut all_tones: Vec<i32> = Vec::new();
        all_tones.push(0);
        let mut flat = flat;
        let mut tones = tones;
        let ghost aligned_tones = tones@;
        proof {
            lemma_texts_add(phones@, flat@);
            assert(texts(phones@) =~= seq![pad()]);
        }
        phones.append(&mut flat);
        all_tones.append(&mut tones);
        let last = one_char('_');
        proof {
            lemma_texts_push(phones@, last);
        }
        phones.push(last);
        all_tones.push(0);
        proof {
            let flat_texts = joined(sv);
            assert(texts(phones@) =~= seq![pad()] + flat_texts + seq![pad()]);
            assert(all_tones@ =~= seq![0i32] + aligned_tones + seq![0i32]);
            assert(word2ph@ =~= seq![1usize] + head_raised(counts)->0 + seq![1usize]);
            assert(readings_upto(tv, kv, kv.len() as int) == Some(nested_texts(raw@)));
            assert(counts_upto(wv, sv, wv.len() as int) == Some(counts));
        }
        Ok((phones, all_tones, word2ph))
    }

    /// The utterance of the sentence: its phonemes between two pads, the
    /// tone of each, and the number of phonemes of each character of its
    /// words, between two ones.
    pub fn g2p(&self) -> (r: Result<(Vec<String>, Vec<i32>, Vec<usize>), Error>)
        ensures
            match r {
                Ok((phones, tones, word2ph)) => utterance(
                    texts(self.parsed@),
                    texts(self.labels@),
                    bundled_moras(),
                ) == Some(Utterance { phones: strs(phones@), tones: tones@, word2ph: word2ph@ }),
                Err(e) => utterance(texts(self.parsed@), texts(self.labels@), bundled_moras())
                    is None && is_utterance_error(
                    e,
                    texts(self.parsed@),
                    texts(self.labels@),
                    bundled_moras(),
                ),
            },
    {
        let table = bundled_table();
        let (phones, tones, word2ph) = self.g2p_with(&table)?;
        Ok((chars_to_strings(&phones), tones, word2ph))
    }
}

} // verus!
