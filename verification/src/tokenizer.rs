//! The token numbers that the embedding model takes: one encoding for
//! each character of the text, between the numbers that open and close a
//! sentence. The tokenizer itself is the caller's: it is handed in as the
//! function that encodes one character.

use vstd::prelude::*;
use crate::chars::str_to_chars;
use crate::error::Error;

verus! {

/// The token number that opens a sentence.
pub const SENTENCE_START: i64 = 1;

/// The token number that closes a sentence.
pub const SENTENCE_END: i64 = 2;

/// The numbers `v` as 64-bit numbers.
pub open spec fn widened(v: Seq<u32>) -> Seq<i64> {
    v.map_values(|x: u32| x as i64)
}

/// The token numbers of the first `n` encodings, one after the other.
pub open spec fn ids_upto(encoded: Seq<(Vec<u32>, Vec<u32>)>, n: int) -> Seq<i64>
    decreases n,
{
    if n <= 0 {
        Seq::empty()
    } else {
        ids_upto(encoded, n - 1) + widened(encoded[n - 1].0@)
    }
}

/// The attention masks of the first `n` encodings, one after the other.
pub open spec fn masks_upto(encoded: Seq<(Vec<u32>, Vec<u32>)>, n: int) -> Seq<i64>
    decreases n,
{
    if n <= 0 {
        Seq::empty()
    } else {
        masks_upto(encoded, n - 1) + widened(encoded[n - 1].1@)
    }
}

/// The token numbers of a text whose characters have the encodings
/// `encoded`.
pub open spec fn token_ids(encoded: Seq<(Vec<u32>, Vec<u32>)>) -> Seq<i64> {
    seq![SENTENCE_START] + ids_upto(encoded, encoded.len() as int) + seq![SENTENCE_END]
}

/// The attention masks of a text whose characters have the encodings
/// `encoded`.
pub open spec fn attention_masks(encoded: Seq<(Vec<u32>, Vec<u32>)>) -> Seq<i64> {
    seq![1i64] + masks_upto(encoded, encoded.len() as int) + seq![1i64]
}

/// Whether `encoded` holds what `encode` gave for each of the first `n`
/// characters of `text`, in their order.
pub open spec fn encoded_upto<F: Fn(char) -> Result<(Vec<u32>, Vec<u32>), String>>(
    encode: F,
    text: Seq<char>,
    encoded: Seq<(Vec<u32>, Vec<u32>)>,
    n: int,
) -> bool {
    &&& encoded.len() == n
    &&& forall|i: int|
        0 <= i < n ==> call_ensures(
            encode,
            (text[i],),
            Ok::<(Vec<u32>, Vec<u32>), String>(#[trigger] encoded[i]),
        )
}

/// Whether `encode` gave an encoding for each of the first `n` characters
/// of `text` and the error `message` for the next.
pub open spec fn refused_at<F: Fn(char) -> Result<(Vec<u32>, Vec<u32>), String>>(
    encode: F,
    text: Seq<char>,
    n: int,
    message: Seq<char>,
) -> bool {
    &&& 0 <= n < text.len()
    &&& exists|encoded: Seq<(Vec<u32>, Vec<u32>)>| #[trigger] encoded_upto(encode, text, encoded, n)
    &&& exists|given: String|
        given@ == message && #[trigger] call_ensures(
            encode,
            (text[n],),
            Err::<(Vec<u32>, Vec<u32>), String>(given),
        )
}

/// Whether `r` is what encoding `text` character by character gives: the
/// token numbers and masks of the encodings that `encode` gave, or the
/// error of the first character that it refused, as an error of the
/// tokenizer.
pub open spec fn tokenized<F: Fn(char) -> Result<(Vec<u32>, Vec<u32>), String>>(
    encode: F,
    text: Seq<char>,
    r: Result<(Vec<i64>, Vec<i64>), Error>,
) -> bool {
    match r {
        Ok((ids, masks)) => exists|encoded: Seq<(Vec<u32>, Vec<u32>)>| #[trigger]
            encoded_upto(encode, text, encoded, text.len() as int) && ids@ == token_ids(encoded)
                && masks@ == attention_masks(encoded),
        Err(e) => e matches Error::TokenizerError(message) && exists|n: int| #[trigger]
            refused_at(encode, text, n, message@),
    }
}

fn append_widened(out: &mut Vec<i64>, v: &Vec<u32>)
    ensures
        final(out)@ == old(out)@ + widened(v@),
{
    let ghost before = out@;
    let mut k: usize = 0;
    assert(before + widened(v@.take(0)) =~= before);
    while k < v.len()
        invariant
            k <= v.len(),
            out@ == before + widened(v@.take(k as int)),
        decreases v.len() - k,
    {
        out.push(v[k] as i64);
        k += 1;
        assert(out@ =~= before + widened(v@.take(k as int)));
    }
    assert(v@.take(v@.len() as int) == v@);
}

/// What reading a tokenizer gave, as a result of the library: the
/// tokenizer as it is, or the message as an error of the tokenizer.
pub fn tokenizer_or_error<T>(read: Result<T, String>) -> (r: Result<T, Error>)
    ensures
        match read {
            Ok(tokenizer) => r == Ok::<T, Error>(tokenizer),
            Err(message) => r matches Err(Error::TokenizerError(m)) && m@ == message@,
        },
{
    match read {
        Ok(tokenizer) => Ok(tokenizer),
        Err(message) => Err(Error::TokenizerError(message)),
    }
}

/// The token numbers and the attention masks of a text whose characters
/// have the encodings `encoded`.
pub fn assemble_tokens(encoded: &Vec<(Vec<u32>, Vec<u32>)>) -> (r: (Vec<i64>, Vec<i64>))
    ensures
        r.0@ == token_ids(encoded@),
        r.1@ == attention_masks(encoded@),
{
    let mut token_ids: Vec<i64> = Vec::new();
    let mut masks: Vec<i64> = Vec::new();
    token_ids.push(SENTENCE_START);
    masks.push(1);
    let mut i: usize = 0;
    assert(token_ids@ =~= seq![SENTENCE_START] + ids_upto(encoded@, 0));
    assert(masks@ =~= seq![1i64] + masks_upto(encoded@, 0));
    while i < encoded.len()
        invariant
            i <= encoded.len(),
            token_ids@ == seq![SENTENCE_START] + ids_upto(encoded@, i as int),
            masks@ == seq![1i64] + masks_upto(encoded@, i as int),
        decreases encoded.len() - i,
    {
        append_widened(&mut token_ids, &encoded[i].0);
        append_widened(&mut masks, &encoded[i].1);
        i += 1;
        assert(token_ids@ =~= seq![SENTENCE_START] + ids_upto(encoded@, i as int));
        assert(masks@ =~= seq![1i64] + masks_upto(encoded@, i as int));
    }
    token_ids.push(SENTENCE_END);
    masks.push(1);
    (token_ids, masks)
}

/// The token numbers and the attention masks of `text`, whose characters
/// `encode` encodes one by one, each to its token numbers and its mask:
/// the encodings in the order of the characters, between the numbers that
/// open and close a sentence. The first character that `encode` refuses
/// ends it, with the message as an error of the tokenizer. The empty text
/// has no character to encode, so it always has its numbers.
pub fn tokenize<F: Fn(char) -> Result<(Vec<u32>, Vec<u32>), String>>(text: &str, encode: F) -> (r:
    Result<(Vec<i64>, Vec<i64>), Error>)
    requires
        forall|c: char| call_requires(encode, (c,)),
    ensures
        tokenized(encode, text@, r),
        text@.len() == 0 ==> (r matches Ok((token_ids_, masks)) && token_ids_@ == seq![
            SENTENCE_START,
            SENTENCE_END,
        ] && masks@ == seq![1i64, 1i64]),
{
    let chars = str_to_chars(text);
    let mut encoded: Vec<(Vec<u32>, Vec<u32>)> = Vec::new();
    let mut i: usize = 0;
    while i < chars.len()
        invariant
            i <= chars.len(),
            chars@ == text@,
            forall|c: char| call_requires(encode, (c,)),
            encoded_upto(encode, text@, encoded@, i as int),
        decreases chars.len() - i,
    {
        match encode(chars[i]) {
            Ok(pair) => {
                encoded.push(pair);
            },
            Err(message) => {
                let r = Err(Error::TokenizerError(message));
                assert(tokenized(encode, text@, r)) by {
                    assert(r matches Err(Error::TokenizerError(m)) && m@ == message@);
                    assert(refused_at(encode, text@, i as int, message@));
                }
                return r;
            },
        }
        i += 1;
    }
    proof {
        if text@.len() == 0 {
            assert(token_ids(encoded@) =~= seq![SENTENCE_START, SENTENCE_END]);
            assert(attention_masks(encoded@) =~= seq![1i64, 1i64]);
        }
    }
    Ok(assemble_tokens(&encoded))
}

} // verus!
