//! What speaking gives: the audio of the segments of a text, with silence
//! between them.

use vstd::prelude::*;
use crate::error::Error;
use crate::style::style_vector_of;
use crate::tts::Voice;
use crate::tts_util::{segment_texts, Segment, SegmentText, SILENCE_SAMPLES};
use crate::voices::found;

verus! {

/// A piece of what was spoken: the audio of one segment, or the silence
/// that follows a segment.
pub enum Piece<A> {
    Audio(A),
    Silence,
}

/// The samples of the first `n` of `pieces`, one after the other, where
/// the silence between two segments is half a second of the sample
/// `silence`.
pub open spec fn samples_upto<T>(pieces: Seq<Piece<Vec<T>>>, silence: T, n: int) -> Seq<T>
    decreases n,
{
    if n <= 0 {
        Seq::empty()
    } else {
        samples_upto(pieces, silence, n - 1) + match pieces[n - 1] {
            Piece::Audio(samples) => samples@,
            Piece::Silence => Seq::new(SILENCE_SAMPLES as nat, |i: int| silence),
        }
    }
}

/// The samples of all `pieces`, one after the other.
pub fn join_pieces<T: Copy>(pieces: &Vec<Piece<Vec<T>>>, silence: T) -> (samples: Vec<T>)
    ensures
        samples@ == samples_upto(pieces@, silence, pieces.len() as int),
{
    let mut samples: Vec<T> = Vec::new();
    let mut i: usize = 0;
    while i < pieces.len()
        invariant
            i <= pieces.len(),
            samples@ == samples_upto(pieces@, silence, i as int),
        decreases pieces.len() - i,
    {
        let ghost before = samples@;
        match &pieces[i] {
            Piece::Audio(audio) => {
                let mut k: usize = 0;
                assert(before + audio@.take(0) =~= before);
                while k < audio.len()
                    invariant
                        k <= audio.len(),
                        samples@ == before + audio@.take(k as int),
                    decreases audio.len() - k,
                {
                    samples.push(audio[k]);
                    k += 1;
                    assert(samples@ =~= before + audio@.take(k as int));
                }
                assert(audio@.take(audio@.len() as int) == audio@);
            },
            Piece::Silence => {
                let mut k: usize = 0;
                assert(before + Seq::new(0nat, |i: int| silence) =~= before);
                while k < SILENCE_SAMPLES
                    invariant
                        k <= SILENCE_SAMPLES,
                        samples@ == before + Seq::new(k as nat, |i: int| silence),
                    decreases SILENCE_SAMPLES - k,
                {
                    samples.push(silence);
                    k += 1;
                    assert(samples@ =~= before + Seq::new(k as nat, |i: int| silence));
                }
            },
        }
        i += 1;
    }
    samples
}

/// Whether `pieces` are what speaking the first `n` of `segments` gives:
/// for each segment the audio that `speak` gave for its text with the model
/// `session` and the style vector `vector`, and silence behind it where
/// the segment has a gap after it.
pub open spec fn spoken_upto<S, A, G: Fn(&S, &String, &Vec<u32>) -> Result<A, Error>>(
    speak: G,
    session: S,
    vector: Vec<u32>,
    segments: Seq<Segment>,
    pieces: Seq<Piece<A>>,
    n: int,
) -> bool
    decreases n,
{
    if n <= 0 {
        pieces.len() == 0
    } else {
        let segment = segments[n - 1];
        let k: int = if segment.gap_after {
            2
        } else {
            1
        };
        &&& pieces.len() >= k
        &&& spoken_upto(speak, session, vector, segments, pieces.take(pieces.len() - k), n - 1)
        &&& pieces[pieces.len() - k] matches Piece::Audio(audio) && call_ensures(
            speak,
            (&session, &segment.text, &vector),
            Ok::<A, Error>(audio),
        )
        &&& segment.gap_after ==> pieces.last() is Silence
    }
}

/// Whether speaking the first `n` of `segments` went well and segment `n`
/// failed with the error `e`.
pub open spec fn failed_at<S, A, G: Fn(&S, &String, &Vec<u32>) -> Result<A, Error>>(
    speak: G,
    session: S,
    vector: Vec<u32>,
    segments: Seq<Segment>,
    n: int,
    e: Error,
) -> bool {
    &&& 0 <= n < segments.len()
    &&& exists|pieces: Seq<Piece<A>>| #[trigger]
        spoken_upto(speak, session, vector, segments, pieces, n)
    &&& call_ensures(speak, (&session, &segments[n].text, &vector), Err::<A, Error>(e))
}

/// Whether `r` is what speaking `segments` gives: the pieces of all of
/// them, or the error of the first that fails.
pub open spec fn told<S, A, G: Fn(&S, &String, &Vec<u32>) -> Result<A, Error>>(
    speak: G,
    session: S,
    vector: Vec<u32>,
    segments: Seq<Segment>,
    r: Result<Vec<Piece<A>>, Error>,
) -> bool {
    match r {
        Ok(pieces) => spoken_upto(speak, session, vector, segments, pieces@, segments.len() as int),
        Err(e) => exists|n: int| #[trigger] failed_at(speak, session, vector, segments, n, e),
    }
}

/// The message of the error for a text that has no segment.
pub open spec fn nothing_to_speak() -> Seq<char> {
    "No text to speak"@
}

/// Whether `r` is what speaking the segments `wanted` with the voice
/// `ident` and the style vector `vector` gives. A voice that is not loaded
/// or not resident is not found; a text without any segment is a value
/// error. Else each segment is spoken with the model of the voice and the
/// style vector, up to the first that fails.
pub open spec fn spoken_with<S, A, G: Fn(&S, &String, &Vec<u32>) -> Result<A, Error>>(
    speak: G,
    voices: Seq<Voice<S>>,
    ident: Seq<char>,
    vector: Vec<u32>,
    wanted: Seq<SegmentText>,
    r: Result<Vec<Piece<A>>, Error>,
) -> bool {
    match found(voices, ident) {
        None => r matches Err(Error::ModelNotFoundError(name)) && name@ == ident,
        Some(i) => match voices[i].session {
            None => r matches Err(Error::ModelNotFoundError(name)) && name@ == ident,
            Some(session) => if wanted.len() == 0 {
                r matches Err(Error::ValueError(message)) && message@ == nothing_to_speak()
            } else {
                exists|parts: Seq<Segment>|
                    segment_texts(parts) == wanted && #[trigger] told(
                        speak,
                        session,
                        vector,
                        parts,
                        r,
                    )
            },
        },
    }
}

/// Whether `r` is the style vector of the style `style_id` of the voice
/// `ident` at the weight `weight`. A voice that is not loaded is not
/// found; else it is the style vector of the style table of the voice.
pub open spec fn style_vector_in<W, S, B: FnOnce(&Vec<u32>, &Vec<u32>, W) -> Vec<u32>>(
    blend: B,
    voices: Seq<Voice<S>>,
    ident: Seq<char>,
    style_id: i32,
    weight: W,
    r: Result<Vec<u32>, Error>,
) -> bool {
    match found(voices, ident) {
        None => r matches Err(Error::ModelNotFoundError(name)) && name@ == ident,
        Some(i) => style_vector_of(blend, voices[i].style, style_id, weight, r),
    }
}

/// Whether `r` is what speaking the segments `wanted` with the voice
/// `ident` in the style `style_id` at the weight `weight` gives: the error
/// of the style vector where there is none, else what speaking with that
/// vector gives.
pub open spec fn spoken<
    W,
    S,
    A,
    B: FnOnce(&Vec<u32>, &Vec<u32>, W) -> Vec<u32>,
    G: Fn(&S, &String, &Vec<u32>) -> Result<A, Error>,
>(
    blend: B,
    speak: G,
    voices: Seq<Voice<S>>,
    ident: Seq<char>,
    style_id: i32,
    weight: W,
    wanted: Seq<SegmentText>,
    r: Result<Vec<Piece<A>>, Error>,
) -> bool {
    exists|vector: Result<Vec<u32>, Error>| #[trigger]
        style_vector_in(blend, voices, ident, style_id, weight, vector) && match vector {
            Err(e) => r == Err::<Vec<Piece<A>>, Error>(e),
            Ok(v) => spoken_with(speak, voices, ident, v, wanted, r),
        }
}

/// Whether `r` is what handing the model of the voice `ident` to `run`
/// gives: what `run` gave, its error as an error of the engine. A voice
/// that is not loaded or not resident is not found.
pub open spec fn ran<S, A, G: FnOnce(&S) -> Result<A, String>>(
    run: G,
    voices: Seq<Voice<S>>,
    ident: Seq<char>,
    r: Result<A, Error>,
) -> bool {
    match found(voices, ident) {
        None => r matches Err(Error::ModelNotFoundError(name)) && name@ == ident,
        Some(i) => match voices[i].session {
            None => r matches Err(Error::ModelNotFoundError(name)) && name@ == ident,
            Some(session) => exists|given: Result<A, String>| #[trigger]
                call_ensures(run, (&session,), given) && match given {
                    Ok(audio) => r == Ok::<A, Error>(audio),
                    Err(message) => r matches Err(Error::InferenceError(m)) && m@ == message@,
                },
        },
    }
}

} // verus!
