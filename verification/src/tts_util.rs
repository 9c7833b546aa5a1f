//! What stands between the aligner and the two models: the numbers of the
//! phonemes with a blank after each, the number of feature columns of each
//! character, and the segments of a text that is spoken line by line.

use vstd::prelude::*;
use crate::chars::{chars_to_string, lemma_texts_push, str_to_chars, strs, texts};
use crate::error::Error;
use crate::distribute::total;
use crate::jtalk::{
    is_utterance_error,
    joined,
    joined_upto,
    lemma_utterance_shape,
    utterance,
    JTalkProcess,
    Utterance,
};
use crate::reading::seq_kata;
use crate::label::{find_char, position_from, slice_of};
use crate::mora::{bundled_moras, MoraText};
use crate::nlp::{
    all_symbols,
    cleaned_text_to_sequence,
    language_ids,
    phone_ids,
    symbol_id,
    symbol_to_id,
    tone_ids,
};
use crate::utils::{intersperse_i64, interspersed};

verus! {

/// The number of samples of silence between two segments: half a second.
pub const SILENCE_SAMPLES: usize = 22050;

/// The number of samples of one second.
pub const SAMPLE_RATE: u32 = 44100;

/// The number of feature columns of entry `k`, where `counts` are the
/// numbers of phonemes of the characters of an utterance. Each phoneme has
/// a blank after it, so each count is doubled. The one blank more, which
/// the first character carries among its phonemes, goes to the pad before
/// it.
pub open spec fn spread_at(counts: Seq<usize>, k: int) -> int {
    if k == 0 {
        2 * counts[0] + 1
    } else if k == 1 && counts.len() > 2 {
        2 * (counts[1] - 1)
    } else {
        2 * counts[k]
    }
}

/// The numbers of feature columns of all entries. There are none where
/// `counts` is empty, where the first character has no phoneme to give,
/// or where a number does not fit.
pub open spec fn spread(counts: Seq<usize>) -> Option<Seq<usize>> {
    if counts.len() == 0 || (counts.len() > 2 && counts[1] == 0) || exists|k: int|
        0 <= k < counts.len() && #[trigger] spread_at(counts, k) > usize::MAX {
        None
    } else {
        Some(Seq::new(counts.len(), |k: int| spread_at(counts, k) as usize))
    }
}

/// For each feature column, the entry that it repeats: entry `i` stands
/// `counts[i]` times, the entries in their order. These are the first `n`
/// entries.
pub open spec fn rows_upto(counts: Seq<usize>, n: int) -> Seq<usize>
    decreases n,
{
    if n <= 0 {
        Seq::empty()
    } else {
        rows_upto(counts, n - 1) + Seq::new(counts[n - 1] as nat, |j: int| (n - 1) as usize)
    }
}

/// For each feature column, the entry that it repeats.
pub open spec fn phone_level_rows(counts: Seq<usize>) -> Seq<usize> {
    rows_upto(counts, counts.len() as int)
}

/// The lines of `s` from position `start` on: what stands between line
/// breaks.
pub open spec fn lines_from(s: Seq<char>, start: int) -> Seq<Seq<char>>
    decreases s.len() - start,
{
    match position_from(s, '\n', start) {
        None => seq![s.subrange(start, s.len() as int)],
        Some(p) => if start <= p < s.len() {
            seq![s.subrange(start, p)] + lines_from(s, p + 1)
        } else {
            Seq::empty()
        },
    }
}

/// A piece of text that is spoken in one go.
pub struct Segment {
    pub text: String,
    /// Whether silence follows the segment: whether another segment
    /// follows it.
    pub gap_after: bool,
}

/// A segment as plain values.
pub ghost struct SegmentText {
    pub text: Seq<char>,
    pub gap_after: bool,
}

impl View for Segment {
    type V = SegmentText;

    open spec fn view(&self) -> SegmentText {
        SegmentText { text: self.text@, gap_after: self.gap_after }
    }
}

/// The segments of a list of segments.
pub open spec fn segment_texts(segments: Seq<Segment>) -> Seq<SegmentText> {
    segments.map_values(|s: Segment| s@)
}

/// Whether one of `lines` from line `n` on is spoken: whether it is not
/// empty.
pub open spec fn later_spoken(lines: Seq<Seq<char>>, n: int) -> bool {
    exists|j: int| n <= j < lines.len() && (#[trigger] lines[j]).len() > 0
}

/// The segments that the first `n` of `lines` give: each line that is not
/// empty is one, and silence follows it exactly where a later line is
/// spoken. Silence stands between two segments, never after the last.
pub open spec fn segments_upto(lines: Seq<Seq<char>>, n: int) -> Seq<SegmentText>
    decreases n,
{
    if n <= 0 {
        Seq::empty()
    } else if lines[n - 1].len() == 0 {
        segments_upto(lines, n - 1)
    } else {
        segments_upto(lines, n - 1).push(
            SegmentText { text: lines[n - 1], gap_after: later_spoken(lines, n) },
        )
    }
}

/// The segments of `text`: its lines where it is spoken line by line, else
/// the whole of it.
pub open spec fn segments(text: Seq<char>, split_sentences: bool) -> Seq<SegmentText> {
    if split_sentences {
        segments_upto(lines_from(text, 0), lines_from(text, 0).len() as int)
    } else {
        seq![SegmentText { text, gap_after: false }]
    }
}

/// What the acoustic model takes for one sentence, but for the features.
pub struct Sequences {
    /// The numbers of the phonemes, a blank after each.
    pub phones: Vec<i64>,
    /// The numbers of the tones, a blank after each.
    pub tones: Vec<i64>,
    /// The language number of each phoneme, a blank after each.
    pub lang_ids: Vec<i64>,
    /// The number of feature columns of each character, and of the two
    /// ends.
    pub word2ph: Vec<usize>,
    /// The words of the sentence, one after the other.
    pub text: String,
}

/// The sequences that an utterance gives, with the words `words`.
pub open spec fn sequences_of(u: Utterance, words: Seq<Seq<char>>, s: Sequences) -> bool {
    &&& s.phones@ == interspersed(phone_ids(u.phones), 0i64)
    &&& s.tones@ == interspersed(tone_ids(u.tones), 0i64)
    &&& s.lang_ids@ == interspersed(language_ids(u.phones.len()), 0i64)
    &&& spread(u.word2ph) == Some(s.word2ph@)
    &&& s.text@ == joined(words)
}

/// Whether an utterance can be given to the models: each of its phonemes
/// is a symbol, and its length and counts fit.
pub open spec fn presentable(u: Utterance) -> bool {
    &&& all_symbols(u.phones)
    &&& 2 * u.phones.len() + 1 <= usize::MAX
    &&& spread(u.word2ph) is Some
}

proof fn lemma_gaps_upto(lines: Seq<Seq<char>>, n: int)
    requires
        0 <= n <= lines.len(),
    ensures
        ({
            let parts = segments_upto(lines, n);
            forall|k: int|
                0 <= k < parts.len() ==> (#[trigger] parts[k]).text.len() > 0 && parts[k].gap_after
                    == (k < parts.len() - 1 || later_spoken(lines, n))
        }),
    decreases n,
{
    if n > 0 {
        lemma_gaps_upto(lines, n - 1);
        let before = segments_upto(lines, n - 1);
        let parts = segments_upto(lines, n);
        if lines[n - 1].len() == 0 {
            assert(later_spoken(lines, n - 1) == later_spoken(lines, n)) by {
                if later_spoken(lines, n - 1) {
                    let j = choose|j: int| n - 1 <= j < lines.len() && (#[trigger] lines[j]).len() > 0;
                    assert(n <= j < lines.len() && lines[j].len() > 0);
                }
            }
        } else {
            assert(later_spoken(lines, n - 1)) by {
                assert(n - 1 <= n - 1 < lines.len() && lines[n - 1].len() > 0);
            }
            assert forall|k: int| 0 <= k < parts.len() implies (#[trigger] parts[k]).text.len() > 0
                && parts[k].gap_after == (k < parts.len() - 1 || later_spoken(lines, n)) by {
                if k < before.len() {
                    assert(parts[k] == before[k]);
                }
            }
        }
    }
}

/// Silence stands between the segments of a text and nowhere else: every
/// segment but the last has a gap after it, and the last has none. So there
/// is one silence less than there are segments. No segment is empty.
pub proof fn lemma_gaps_between(text: Seq<char>, split_sentences: bool)
    ensures
        ({
            let parts = segments(text, split_sentences);
            forall|k: int|
                0 <= k < parts.len() ==> (#[trigger] parts[k]).gap_after == (k < parts.len() - 1)
                    && (split_sentences ==> parts[k].text.len() > 0)
        }),
{
    if split_sentences {
        let lines = lines_from(text, 0);
        lemma_gaps_upto(lines, lines.len() as int);
        assert(!later_spoken(lines, lines.len() as int));
    }
}

pub proof fn lemma_rows_len(counts: Seq<usize>, n: int)
    requires
        0 <= n <= counts.len(),
    ensures
        rows_upto(counts, n).len() == total(counts.take(n)),
        forall|p: int| 0 <= p < rows_upto(counts, n).len() ==> #[trigger] rows_upto(counts, n)[p] < n,
    decreases n,
{
    if n == 0 {
        assert(counts.take(0) == Seq::<usize>::empty());
    } else {
        lemma_rows_len(counts, n - 1);
        assert(counts.take(n).drop_last() == counts.take(n - 1));
        assert(counts.take(n).last() == counts[n - 1]);
    }
}

proof fn lemma_spread_total_upto(counts: Seq<usize>, n: int)
    requires
        spread(counts) is Some,
        1 <= n <= counts.len(),
    ensures
        total(spread(counts)->0.take(n)) == 2 * total(counts.take(n)) + 1 - if n >= 2
            && counts.len() > 2 {
            2int
        } else {
            0int
        },
    decreases n,
{
    let out = spread(counts)->0;
    assert(out.take(n).drop_last() == out.take(n - 1));
    assert(counts.take(n).drop_last() == counts.take(n - 1));
    assert(out.take(n).last() == out[n - 1]);
    assert(counts.take(n).last() == counts[n - 1]);
    assert(spread_at(counts, n - 1) <= usize::MAX);
    if n == 1 {
        assert(out.take(0) == Seq::<usize>::empty());
        assert(counts.take(0) == Seq::<usize>::empty());
        assert(total(out.take(0)) == 0);
        assert(total(counts.take(0)) == 0);
    } else {
        lemma_spread_total_upto(counts, n - 1);
    }
}

/// The feature columns of an utterance are as many as its phonemes with a
/// blank after each and one blank more: each column has its phoneme.
pub proof fn lemma_features_match_phonemes(
    parsed: Seq<Seq<char>>,
    labels: Seq<Seq<char>>,
    table: Seq<MoraText>,
)
    requires
        utterance(parsed, labels, table) is Some,
        spread(utterance(parsed, labels, table)->0.word2ph) is Some,
    ensures
        ({
            let u = utterance(parsed, labels, table)->0;
            let columns = spread(u.word2ph)->0;
            &&& columns.len() == u.word2ph.len()
            &&& total(columns) == 2 * u.phones.len() + 1
            &&& total(columns) == interspersed(u.phones, Seq::<char>::empty()).len()
            &&& phone_level_rows(columns).len() == total(columns)
        }),
{
    let u = utterance(parsed, labels, table)->0;
    let columns = spread(u.word2ph)->0;
    lemma_utterance_shape(parsed, labels, table);
    lemma_spread_total_upto(u.word2ph, u.word2ph.len() as int);
    assert(u.word2ph.take(u.word2ph.len() as int) == u.word2ph);
    assert(columns.take(columns.len() as int) == columns);
    lemma_rows_len(columns, columns.len() as int);
}

/// The numbers of feature columns of all entries.
pub fn spread_word2ph(counts: &Vec<usize>) -> (r: Result<Vec<usize>, Error>)
    ensures
        match r {
            Ok(columns) => spread(counts@) == Some(columns@),
            Err(e) => spread(counts@) is None && e is ValueError,
        },
{
    let n = counts.len();
    if n == 0 || (n > 2 && counts[1] == 0) {
        return Err(Error::ValueError("No counts to spread".to_owned()));
    }
    let mut out: Vec<usize> = Vec::new();
    let mut k: usize = 0;
    while k < n
        invariant
            k <= n == counts.len(),
            n > 0,
            !(n > 2 && counts@[1] == 0),
            out.len() == k,
            forall|j: int| 0 <= j < k ==> #[trigger] spread_at(counts@, j) <= usize::MAX,
            forall|j: int| 0 <= j < k ==> out@[j] == #[trigger] spread_at(counts@, j),
        decreases n - k,
    {
        let c = counts[k];
        let doubled = if k == 0 {
            if c > (usize::MAX - 1) / 2 {
                None
            } else {
                Some(2 * c + 1)
            }
        } else {
            let base = if k == 1 && n > 2 {
                c - 1
            } else {
                c
            };
            if base > usize::MAX / 2 {
                None
            } else {
                Some(2 * base)
            }
        };
        match doubled {
            None => {
                assert(spread_at(counts@, k as int) > usize::MAX);
                return Err(Error::ValueError("Too many feature columns".to_owned()));
            },
            Some(d) => {
                out.push(d);
            },
        }
        k += 1;
    }
    assert(out@ =~= spread(counts@)->0);
    Ok(out)
}

/// For each feature column, the entry whose features it repeats.
pub fn phone_level_feature_rows(counts: &Vec<usize>) -> (rows: Vec<usize>)
    ensures
        rows@ == phone_level_rows(counts@),
{
    let mut rows: Vec<usize> = Vec::new();
    let mut i: usize = 0;
    while i < counts.len()
        invariant
            i <= counts.len(),
            rows@ == rows_upto(counts@, i as int),
        decreases counts.len() - i,
    {
        let ghost before = rows@;
        let mut j: usize = 0;
        assert(before + Seq::new(0nat, |j: int| i) =~= before);
        while j < counts[i]
            invariant
                i < counts.len(),
                j <= counts@[i as int],
                rows@ == before + Seq::new(j as nat, |j: int| i),
            decreases counts@[i as int] - j,
        {
            rows.push(i);
            j += 1;
            assert(rows@ =~= before + Seq::new(j as nat, |j: int| i));
        }
        i += 1;
    }
    rows
}

/// Whether each of the first `n` rows of `features` holds `width` items.
pub open spec fn rows_have_width<T>(features: Seq<Vec<T>>, n: int, width: int) -> bool {
    n <= features.len() && forall|i: int| 0 <= i < n ==> (#[trigger] features[i]).len() == width
}

/// Whether `out` holds the features of the phonemes: one row for each of
/// the `width` features, and in it, for each feature column, the feature
/// of the entry that the column repeats.
pub open spec fn expanded<T>(
    features: Seq<Vec<T>>,
    counts: Seq<usize>,
    width: int,
    out: Seq<Vec<T>>,
) -> bool {
    let rows = phone_level_rows(counts);
    &&& out.len() == width
    &&& forall|c: int| 0 <= c < width ==> (#[trigger] out[c]).len() == rows.len()
    &&& forall|c: int, p: int|
        0 <= c < width && 0 <= p < rows.len() ==> #[trigger] out[c]@[p] == features[rows[p] as int]@[c]
}

/// The features of the phonemes, from the features of the entries, of
/// which each has `width`: the rows of `features` are repeated as `counts`
/// says, and the result is turned, so that it has one row for each feature.
/// There is no result where `features` has fewer rows than there are counts
/// or a row of another width among them.
pub fn expand_features<T: Copy>(features: &Vec<Vec<T>>, counts: &Vec<usize>, width: usize) -> (r:
    Result<Vec<Vec<T>>, Error>)
    ensures
        match r {
            Ok(out) => rows_have_width(features@, counts.len() as int, width as int) && expanded(
                features@,
                counts@,
                width as int,
                out@,
            ),
            Err(e) => !rows_have_width(features@, counts.len() as int, width as int) && e
                is ValueError,
        },
{
    if counts.len() > features.len() {
        return Err(Error::ValueError("Too few rows of features".to_owned()));
    }
    let mut i: usize = 0;
    while i < counts.len()
        invariant
            i <= counts.len() <= features.len(),
            forall|k: int| 0 <= k < i ==> (#[trigger] features@[k]).len() == width,
        decreases counts.len() - i,
    {
        if features[i].len() != width {
            return Err(Error::ValueError("Rows of features differ in width".to_owned()));
        }
        i += 1;
    }
    let rows = phone_level_feature_rows(counts);
    proof {
        lemma_rows_len(counts@, counts@.len() as int);
    }
    let mut out: Vec<Vec<T>> = Vec::new();
    let mut c: usize = 0;
    while c < width
        invariant
            c <= width,
            counts.len() <= features.len(),
            rows@ == phone_level_rows(counts@),
            forall|p: int| 0 <= p < rows@.len() ==> #[trigger] rows@[p] < counts@.len(),
            forall|k: int| 0 <= k < counts.len() ==> (#[trigger] features@[k]).len() == width,
            out.len() == c,
            forall|d: int| 0 <= d < c ==> (#[trigger] out@[d]).len() == rows@.len(),
            forall|d: int, p: int|
                0 <= d < c && 0 <= p < rows@.len() ==> #[trigger] out@[d]@[p]
                    == features@[rows@[p] as int]@[d],
        decreases width - c,
    {
        let mut line: Vec<T> = Vec::new();
        let mut p: usize = 0;
        while p < rows.len()
            invariant
                p <= rows.len(),
                c < width,
                counts.len() <= features.len(),
                forall|q: int| 0 <= q < rows@.len() ==> #[trigger] rows@[q] < counts@.len(),
                forall|k: int| 0 <= k < counts.len() ==> (#[trigger] features@[k]).len() == width,
                line.len() == p,
                forall|q: int| 0 <= q < p ==> #[trigger] line@[q] == features@[rows@[q] as int]@[c as int],
            decreases rows.len() - p,
        {
            let row = rows[p];
            assert(rows@[p as int] < counts@.len());
            assert(features@[row as int].len() == width);
            line.push(features[row][c]);
            p += 1;
        }
        out.push(line);
        c += 1;
    }
    Ok(out)
}

/// The segments of `text`: each line that is not empty where the text is
/// spoken line by line, with a gap after each but the last; else the whole
/// text, without a gap.
#[verifier::loop_isolation(false)]
pub fn split_segments(text: &str, split_sentences: bool) -> (out: Vec<Segment>)
    ensures
        segment_texts(out@) == segments(text@, split_sentences),
        forall|k: int| 0 <= k < out.len() ==> (#[trigger] out@[k]).gap_after == (k < out.len() - 1),
{
    let mut out: Vec<Segment> = Vec::new();
    if !split_sentences {
        let whole = Segment { text: text.to_owned(), gap_after: false };
        out.push(whole);
        assert(segment_texts(out@) =~= segments(text@, split_sentences));
        return out;
    }
    let chars = str_to_chars(text);
    let mut lines: Vec<Vec<char>> = Vec::new();
    let mut start: usize = 0;
    let mut done = false;
    proof {
        assert(texts(lines@) =~= Seq::<Seq<char>>::empty());
        assert(Seq::<Seq<char>>::empty() + lines_from(chars@, 0) =~= lines_from(chars@, 0));
    }
    while !done
        invariant
            start <= chars.len(),
            !done ==> texts(lines@) + lines_from(chars@, start as int) == lines_from(chars@, 0),
            done ==> texts(lines@) == lines_from(chars@, 0),
        decreases chars.len() - start + if done { 0int } else { 1int },
    {
        let ghost before = texts(lines@);
        match find_char(&chars, '\n', start) {
            None => {
                let line = slice_of(&chars, start, chars.len());
                proof {
                    lemma_texts_push(lines@, line);
                    assert(before + seq![line@] =~= before.push(line@));
                }
                lines.push(line);
                done = true;
            },
            Some(p) => {
                let line = slice_of(&chars, start, p);
                proof {
                    lemma_texts_push(lines@, line);
                    let rest = lines_from(chars@, p + 1);
                    assert(before + (seq![line@] + rest) =~= before.push(line@) + rest);
                }
                lines.push(line);
                start = p + 1;
            },
        }
    }
    let ghost all = texts(lines@);
    let mut spoken_below: usize = lines.len();
    while spoken_below > 0 && lines[spoken_below - 1].len() == 0
        invariant
            spoken_below <= lines.len(),
            all == texts(lines@),
            !later_spoken(all, spoken_below as int),
        decreases spoken_below,
    {
        assert(all[spoken_below - 1] == lines@[spoken_below - 1]@);
        spoken_below -= 1;
    }
    proof {
        if spoken_below > 0 {
            assert(all[spoken_below - 1] == lines@[spoken_below - 1]@);
        }
    }
    let mut i: usize = 0;
    assert(segment_texts(out@) =~= segments_upto(all, 0));
    while i < lines.len()
        invariant
            i <= lines.len(),
            spoken_below <= lines.len(),
            all == texts(lines@),
            !later_spoken(all, spoken_below as int),
            spoken_below > 0 ==> all[spoken_below - 1].len() > 0,
            segment_texts(out@) == segments_upto(all, i as int),
        decreases lines.len() - i,
    {
        assert(all[i as int] == lines@[i as int]@);
        if lines[i].len() > 0 {
            let gap_after = spoken_below - i > 1;
            proof {
                if gap_after {
                    assert(i + 1 <= spoken_below - 1 < all.len() && all[spoken_below - 1].len() > 0);
                    assert(later_spoken(all, i + 1));
                } else {
                    assert(i < spoken_below) by {
                        if i >= spoken_below {
                            assert(spoken_below <= i < all.len() && all[i as int].len() > 0);
                        }
                    }
                    assert(!later_spoken(all, i + 1));
                }
            }
            let segment = Segment { text: chars_to_string(&lines[i]), gap_after };
            assert(segment_texts(out@.push(segment)) =~= segment_texts(out@).push(segment@));
            out.push(segment);
        }
        i += 1;
    }
    proof {
        let parts = segments(text@, split_sentences);
        lemma_gaps_between(text@, split_sentences);
        assert(all == lines_from(text@, 0));
        assert(segment_texts(out@) == parts);
        assert(parts.len() == out.len());
        assert forall|k: int| 0 <= k < out.len() implies (#[trigger] out@[k]).gap_after == (k
            < out.len() - 1) by {
            assert(parts[k].gap_after == out@[k].gap_after);
        }
    }
    out
}

/// The words `words`, one after the other.
pub fn join_words(words: &Vec<Vec<char>>) -> (text: Vec<char>)
    ensures
        text@ == joined(texts(words@)),
{
    let ghost all = texts(words@);
    let mut text: Vec<char> = Vec::new();
    let mut i: usize = 0;
    while i < words.len()
        invariant
            i <= words.len(),
            all == texts(words@),
            text@ == joined_upto(all, i as int),
        decreases words.len() - i,
    {
        let word = &words[i];
        assert(all[i as int] == word@);
        let ghost before = text@;
        let mut k: usize = 0;
        assert(before + word@.take(0) =~= before);
        while k < word.len()
            invariant
                k <= word.len(),
                text@ == before + word@.take(k as int),
            decreases word.len() - k,
        {
            text.push(word[k]);
            k += 1;
            assert(text@ =~= before + word@.take(k as int));
        }
        assert(word@.take(word@.len() as int) == word@);
        i += 1;
    }
    text
}

/// The sequences of the sentence `process`: the numbers of its phonemes,
/// tones and language, each with a blank after it, the number of feature
/// columns of each character, and its words as one text.
#[verifier::loop_isolation(false)]
pub fn text_sequences(process: &JTalkProcess) -> (r: Result<Sequences, Error>)
    ensures
        match r {
            Ok(s) => utterance(texts(process.parsed@), texts(process.labels@), bundled_moras())
                matches Some(u) && (presentable(u) && (seq_kata(texts(process.parsed@))
                matches Some(pair) && sequences_of(u, pair.0, s))),
            Err(e) => match utterance(
                texts(process.parsed@),
                texts(process.labels@),
                bundled_moras(),
            ) {
                None => is_utterance_error(
                    e,
                    texts(process.parsed@),
                    texts(process.labels@),
                    bundled_moras(),
                ),
                Some(u) => !presentable(u) && e is ValueError,
            },
        },
{
    let (phones, tones, word2ph) = process.g2p()?;
    let ghost u = utterance(texts(process.parsed@), texts(process.labels@), bundled_moras())->0;
    proof {
        lemma_utterance_shape(texts(process.parsed@), texts(process.labels@), bundled_moras());
    }
    let mut i: usize = 0;
    while i < phones.len()
        invariant
            i <= phones.len(),
            forall|k: int| 0 <= k < i ==> symbol_id(#[trigger] strs(phones@)[k]) is Some,
        decreases phones.len() - i,
    {
        assert(strs(phones@)[i as int] == phones@[i as int]@);
        if symbol_to_id(phones[i].as_str()).is_none() {
            assert(symbol_id(u.phones[i as int]) is None);
            return Err(Error::ValueError("Unknown symbol".to_owned()));
        }
        i += 1;
    }
    let n = phones.len();
    if n > (usize::MAX - 1) / 2 {
        return Err(Error::ValueError("Too many phonemes".to_owned()));
    }
    let columns = spread_word2ph(&word2ph)?;
    let (words, _) = match process.seq_kata() {
        Ok(pair) => pair,
        Err(e) => {
            return Err(e);
        },
    };
    let text = join_words(&words);
    let (phone_numbers, tone_numbers, lang_numbers) = cleaned_text_to_sequence(phones, tones);
    Ok(
        Sequences {
            phones: intersperse_i64(&phone_numbers, 0),
            tones: intersperse_i64(&tone_numbers, 0),
            lang_ids: intersperse_i64(&lang_numbers, 0),
            word2ph: columns,
            text: chars_to_string(&text),
        },
    )
}

} // verus!
