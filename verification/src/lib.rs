//! Front-end and model bookkeeping of a Japanese text-to-speech engine.
//!
//! A text is normalised (`norm`), analysed by a morphological analyser that
//! is not part of this library, and aligned (`jtalk`): the labels of its
//! phonemes give the prosody (`label`, `prosody`, `tones`), the feature
//! lines of its words give the readings (`reading`) and their phonemes
//! (`mora`, `kana`), and both are brought together (`align`, `distribute`).
//! The utterance becomes the numbers that the models take (`nlp`,
//! `tokenizer`, `tts_util`). Voices are loaded from archives (`sbv2file`,
//! `style`) into a holder (`tts`, `voices`) that keeps a bounded number of
//! them resident and speaks with them (`speech`).

pub mod align;
pub mod chars;
pub mod distribute;
pub mod error;
pub mod ident;
pub mod jtalk;
pub mod kana;
pub mod label;
pub mod mora;
pub mod nlp;
pub mod norm;
pub mod prosody;
pub mod reading;
pub mod sbv2file;
pub mod speech;
pub mod style;
pub mod tokenizer;
pub mod tones;
pub mod tts;
pub mod tts_util;
pub mod utils;
pub mod voices;

use vstd::prelude::*;

verus! {

/// Sum of two sizes.
pub fn add(left: usize, right: usize) -> (sum: usize)
    requires
        left + right <= usize::MAX,
    ensures
        sum == left + right,
{
    left + right
}

} // verus!
