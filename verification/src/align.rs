//! The alignment of the phonemes of the readings with the phonemes that
//! carry a tone.

use vstd::prelude::*;
use crate::chars::{chars_to_string, same_chars, texts};
use crate::error::Error;
use crate::jtalk::JTalkProcess;
use crate::norm::{is_punctuation, is_punctuation_exec};

verus! {

/// Where the alignment of phonemes with tones stands: the next phoneme
/// that carries a tone, and the tones given so far.
pub ghost struct Aligning {
    pub next: int,
    pub tones: Seq<i32>,
}

/// A phoneme that could not be aligned.
pub ghost struct Mismatch {
    pub phone: Seq<char>,
    pub expected: Seq<char>,
    pub aligned: Seq<i32>,
}

/// The alignment of the first `n` of `phones` with the phonemes `toned`
/// and their `tones`. A phoneme that is the next toned phoneme takes its
/// tone; when the toned phonemes or their tones are used up, or the phoneme
/// is punctuation, it takes tone 0; any other phoneme ends the alignment.
pub open spec fn aligned_upto(
    phones: Seq<Seq<char>>,
    toned: Seq<Seq<char>>,
    tones: Seq<i32>,
    n: int,
) -> Result<Aligning, Mismatch>
    decreases n,
{
    if n <= 0 {
        Ok(Aligning { next: 0, tones: Seq::empty() })
    } else {
        match aligned_upto(phones, toned, tones, n - 1) {
            Err(m) => Err(m),
            Ok(a) => {
                let phone = phones[n - 1];
                if a.next >= toned.len() || a.next >= tones.len() {
                    Ok(Aligning { next: a.next, tones: a.tones.push(0) })
                } else if phone == toned[a.next] {
                    Ok(Aligning { next: a.next + 1, tones: a.tones.push(tones[a.next]) })
                } else if is_punctuation(phone) {
                    Ok(Aligning { next: a.next, tones: a.tones.push(0) })
                } else {
                    Err(Mismatch { phone, expected: toned[a.next], aligned: a.tones })
                }
            },
        }
    }
}

/// The tones of `phones` after alignment with the phonemes `toned` and
/// their `tones`.
pub open spec fn aligned(phones: Seq<Seq<char>>, toned: Seq<Seq<char>>, tones: Seq<i32>) -> Result<
    Seq<i32>,
    Mismatch,
> {
    match aligned_upto(phones, toned, tones, phones.len() as int) {
        Ok(a) => Ok(a.tones),
        Err(m) => Err(m),
    }
}

pub proof fn lemma_aligned_len(phones: Seq<Seq<char>>, toned: Seq<Seq<char>>, tones: Seq<i32>, n: int)
    requires
        0 <= n,
    ensures
        aligned_upto(phones, toned, tones, n) matches Ok(a) ==> a.tones.len() == n,
    decreases n,
{
    if n > 0 {
        lemma_aligned_len(phones, toned, tones, n - 1);
    }
}

proof fn lemma_aligned_stays_failed(
    phones: Seq<Seq<char>>,
    toned: Seq<Seq<char>>,
    tones: Seq<i32>,
    n: int,
    m: int,
)
    requires
        0 <= n <= m,
        aligned_upto(phones, toned, tones, n) is Err,
    ensures
        aligned_upto(phones, toned, tones, m) == aligned_upto(phones, toned, tones, n),
    decreases m - n,
{
    if n < m {
        lemma_aligned_stays_failed(phones, toned, tones, n, m - 1);
    }
}

/// The phonemes among the first `n` of `phones` that are no punctuation,
/// in their order.
pub open spec fn unpunctuated_upto(phones: Seq<Seq<char>>, n: int) -> Seq<Seq<char>>
    decreases n,
{
    if n <= 0 {
        Seq::empty()
    } else if is_punctuation(phones[n - 1]) {
        unpunctuated_upto(phones, n - 1)
    } else {
        unpunctuated_upto(phones, n - 1).push(phones[n - 1])
    }
}

/// The phonemes among `phones` that are no punctuation, in their order.
pub open spec fn unpunctuated(phones: Seq<Seq<char>>) -> Seq<Seq<char>> {
    unpunctuated_upto(phones, phones.len() as int)
}

/// The tone that phoneme `i` of `phones` has where the phonemes that are
/// no punctuation carry the `tones`, in their order: 0 for punctuation,
/// else the tone of its place among the others.
pub open spec fn tone_at(phones: Seq<Seq<char>>, tones: Seq<i32>, i: int) -> i32 {
    if is_punctuation(phones[i]) {
        0
    } else {
        tones[unpunctuated_upto(phones, i).len() as int]
    }
}

proof fn lemma_unpunctuated_holds_none(phones: Seq<Seq<char>>, n: int)
    ensures
        forall|j: int|
            0 <= j < unpunctuated_upto(phones, n).len() ==> !is_punctuation(
                #[trigger] unpunctuated_upto(phones, n)[j],
            ),
    decreases n,
{
    if n > 0 {
        lemma_unpunctuated_holds_none(phones, n - 1);
        let before = unpunctuated_upto(phones, n - 1);
        let here = unpunctuated_upto(phones, n);
        assert forall|j: int| 0 <= j < here.len() implies !is_punctuation(#[trigger] here[j]) by {
            if j < before.len() {
                assert(here[j] == before[j]);
            }
        }
    }
}

proof fn lemma_unpunctuated_grows(phones: Seq<Seq<char>>, n: int, m: int)
    requires
        0 <= n <= m,
    ensures
        unpunctuated_upto(phones, n).len() <= unpunctuated_upto(phones, m).len(),
        unpunctuated_upto(phones, m).take(unpunctuated_upto(phones, n).len() as int)
            == unpunctuated_upto(phones, n),
    decreases m - n,
{
    let short = unpunctuated_upto(phones, n);
    if n < m {
        lemma_unpunctuated_grows(phones, n, m - 1);
        let before = unpunctuated_upto(phones, m - 1);
        assert(before.take(short.len() as int) == short);
        assert(unpunctuated_upto(phones, m).take(short.len() as int) =~= before.take(
            short.len() as int,
        ));
    } else {
        assert(short.take(short.len() as int) =~= short);
    }
}

proof fn lemma_agreeing_upto(
    phones: Seq<Seq<char>>,
    toned: Seq<Seq<char>>,
    tones: Seq<i32>,
    n: int,
)
    requires
        0 <= n <= phones.len(),
        unpunctuated(phones) == toned,
        tones.len() == toned.len(),
    ensures
        aligned_upto(phones, toned, tones, n) matches Ok(a) && a.next == unpunctuated_upto(
            phones,
            n,
        ).len() && a.tones.len() == n && forall|i: int|
            0 <= i < n ==> #[trigger] a.tones[i] == tone_at(phones, tones, i),
    decreases n,
{
    if n > 0 {
        lemma_agreeing_upto(phones, toned, tones, n - 1);
        let a = aligned_upto(phones, toned, tones, n - 1)->Ok_0;
        let phone = phones[n - 1];
        let here = unpunctuated_upto(phones, n);
        lemma_unpunctuated_grows(phones, n, phones.len() as int);
        lemma_unpunctuated_holds_none(phones, phones.len() as int);
        if is_punctuation(phone) {
            if a.next < toned.len() {
                assert(!is_punctuation(toned[a.next]));
            }
        } else {
            assert(here[a.next] == phone);
            assert(toned.take(here.len() as int)[a.next] == toned[a.next]);
        }
        let b = aligned_upto(phones, toned, tones, n)->Ok_0;
        assert forall|i: int| 0 <= i < n implies #[trigger] b.tones[i] == tone_at(
            phones,
            tones,
            i,
        ) by {
            if i < n - 1 {
                assert(b.tones[i] == a.tones[i]);
            }
        }
    }
}

/// Phonemes that agree with the toned phonemes are aligned. Where the
/// phonemes that are no punctuation are the toned phonemes, in their
/// order, and each of those has a tone, the alignment does not fail: each
/// punctuation mark takes tone 0, and every other phoneme takes the tone
/// of the toned phoneme that it is.
pub proof fn lemma_agreeing_phonemes_align(
    phones: Seq<Seq<char>>,
    toned: Seq<Seq<char>>,
    tones: Seq<i32>,
)
    requires
        unpunctuated(phones) == toned,
        tones.len() == toned.len(),
    ensures
        aligned(phones, toned, tones) matches Ok(out) && out.len() == phones.len() && forall|
            i: int,
        |
            0 <= i < phones.len() ==> #[trigger] out[i] == tone_at(phones, tones, i),
{
    lemma_agreeing_upto(phones, toned, tones, phones.len() as int);
}

impl JTalkProcess {
    /// Gives each of `phone_with_punct` its tone: that of the next phoneme
    /// of `phones`, which carry the `tones`, where it is that phoneme, and
    /// 0 where it is punctuation or those phonemes are used up.
    pub fn align_tones(
        phone_with_punct: &Vec<Vec<char>>,
        phones: &Vec<Vec<char>>,
        tones: &Vec<i32>,
    ) -> (r: Result<Vec<i32>, Error>)
        ensures
            match r {
                Ok(out) => aligned(texts(phone_with_punct@), texts(phones@), tones@) == Ok::<
                    Seq<i32>,
                    Mismatch,
                >(out@),
                Err(e) => match aligned(texts(phone_with_punct@), texts(phones@), tones@) {
                    Ok(_) => false,
                    Err(m) => e matches Error::MismatchedPhoneme { phone, expected, aligned }
                        && phone@ == m.phone && expected@ == m.expected && aligned@ == m.aligned,
                },
            },
    {
        let ghost all = texts(phone_with_punct@);
        let ghost toned = texts(phones@);
        let mut out: Vec<i32> = Vec::new();
        let mut tone_index: usize = 0;
        let mut i: usize = 0;
        while i < phone_with_punct.len()
            invariant
                i <= phone_with_punct.len(),
                all == texts(phone_with_punct@),
                toned == texts(phones@),
                tone_index <= phones.len(),
                tone_index <= tones.len(),
                aligned_upto(all, toned, tones@, i as int) == Ok::<Aligning, Mismatch>(
                    Aligning { next: tone_index as int, tones: out@ },
                ),
            decreases phone_with_punct.len() - i,
        {
            let phone = &phone_with_punct[i];
            assert(all[i as int] == phone@);
            if tone_index >= phones.len() || tone_index >= tones.len() {
                out.push(0);
            } else {
                assert(toned[tone_index as int] == phones@[tone_index as int]@);
                if same_chars(phone, &phones[tone_index]) {
                    out.push(tones[tone_index]);
                    tone_index += 1;
                } else if is_punctuation_exec(phone) {
                    out.push(0);
                } else {
                    assert(aligned_upto(all, toned, tones@, i + 1) is Err);
                    assert(aligned_upto(all, toned, tones@, all.len() as int) == aligned_upto(
                        all,
                        toned,
                        tones@,
                        i + 1,
                    )) by {
                        lemma_aligned_stays_failed(all, toned, tones@, i + 1, all.len() as int);
                    }
                    return Err(
                        Error::MismatchedPhoneme {
                            phone: chars_to_string(phone),
                            expected: chars_to_string(&phones[tone_index]),
                            aligned: out,
                        },
                    );
                }
            }
            i += 1;
        }
        Ok(out)
    }
}

} // verus!
