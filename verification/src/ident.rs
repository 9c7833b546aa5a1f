//! The name of a voice.

use vstd::prelude::*;

verus! {

/// The name under which a voice is loaded. Names are compared letter for
/// letter.
#[derive(Debug, Clone, Eq)]
pub struct TTSIdent(pub String);

impl View for TTSIdent {
    type V = Seq<char>;

    open spec fn view(&self) -> Seq<char> {
        self.0@
    }
}

impl PartialEq for TTSIdent {
    fn eq(&self, other: &Self) -> (same: bool) {
        self.0 == other.0
    }
}

impl vstd::std_specs::cmp::PartialEqSpecImpl for TTSIdent {
    open spec fn obeys_eq_spec() -> bool {
        true
    }

    open spec fn eq_spec(&self, other: &Self) -> bool {
        self.0@ == other.0@
    }
}

impl TTSIdent {
    /// The name `name`.
    pub fn new(name: &str) -> (ident: TTSIdent)
        ensures
            ident@ == name@,
    {
        TTSIdent(name.to_owned())
    }

    /// The name as text.
    pub fn as_str(&self) -> (name: &str)
        ensures
            name@ == self@,
    {
        self.0.as_str()
    }

    /// The name as a string of its own.
    pub fn to_string(&self) -> (name: String)
        ensures
            name@ == self@,
    {
        self.0.clone()
    }

    /// Whether this is the name `name`.
    pub fn is(&self, name: &TTSIdent) -> (same: bool)
        ensures
            same == (self@ == name@),
    {
        self.0 == name.0
    }
}

} // verus!
