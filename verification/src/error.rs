//! The errors of the library.

use vstd::prelude::*;

verus! {

/// `std::io::Error`, which is carried through as it is: nothing is said of
/// what it holds.
#[verifier::external_type_specification]
#[verifier::external_body]
pub struct ExIoError(std::io::Error);

/// What can go wrong.
#[derive(Debug)]
pub enum Error {
    /// The text cannot be aligned: its phonemes and its tones do not fit
    /// together, or an accent phrase holds tones that no accent has.
    ValueError(String),
    /// A phoneme of the reading is neither the next phoneme that carries a
    /// tone nor punctuation. `expected` is that next phoneme, `aligned` the
    /// tones given to the phonemes before `phone`.
    MismatchedPhoneme { phone: String, expected: String, aligned: Vec<i32> },
    /// No voice of that name is loaded, or an archive lacks the named member.
    ModelNotFoundError(String),
    /// A style table or a model could not be made from its bytes.
    ModelLoadError(String),
    /// The inference engine failed.
    InferenceError(String),
    /// The tokenizer could not be made, or could not encode a character.
    TokenizerError(String),
    /// Reading an archive failed.
    IoError(std::io::Error),
}

/// `ToString::to_string` of an error of reading: its text for a person.
/// Nothing is claimed of the text.
#[verifier::external_body]
fn io_error_text(e: &std::io::Error) -> String {
    e.to_string()
}

fn prefixed(prefix: &str, detail: &str) -> (text: String)
    ensures
        text@ == prefix@ + detail@,
{
    let mut text = prefix.to_owned();
    text.append(detail);
    text
}

impl Error {
    /// The error as a line of text for a person: what went wrong, then the
    /// detail that the error carries. A mismatched phoneme is a value
    /// error by its text. A missing voice or member is told without its
    /// name, which the error itself holds.
    pub fn message(&self) -> (text: String)
        ensures
            match *self {
                Error::ValueError(detail) => text@ == "Value error: "@ + detail@,
                Error::MismatchedPhoneme { phone, expected, aligned } => text@
                    == "Value error: Mismatched phoneme: "@ + phone@,
                Error::ModelNotFoundError(_) => text@ == "model not found error"@,
                Error::ModelLoadError(detail) => text@ == "model load error: "@ + detail@,
                Error::InferenceError(detail) => text@ == "ONNX error: "@ + detail@,
                Error::TokenizerError(detail) => text@ == "Tokenizer error: "@ + detail@,
                Error::IoError(_) => exists|detail: Seq<char>| text@ == "IO error: "@ + detail,
            },
    {
        match self {
            Error::ValueError(detail) => prefixed("Value error: ", detail.as_str()),
            Error::MismatchedPhoneme { phone, expected: _, aligned: _ } => prefixed(
                "Value error: Mismatched phoneme: ",
                phone.as_str(),
            ),
            Error::ModelNotFoundError(_) => "model not found error".to_owned(),
            Error::ModelLoadError(detail) => prefixed("model load error: ", detail.as_str()),
            Error::InferenceError(detail) => prefixed("ONNX error: ", detail.as_str()),
            Error::TokenizerError(detail) => prefixed("Tokenizer error: ", detail.as_str()),
            Error::IoError(e) => {
                let detail = io_error_text(e);
                prefixed("IO error: ", detail.as_str())
            },
        }
    }
}

} // verus!
