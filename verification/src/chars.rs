//! Conversions between strings and sequences of characters.

use vstd::prelude::*;
use crate::utils::copy_of;

verus! {

/// `String::push` appends one character to the end of the string.
pub assume_specification[ String::push ](s: &mut String, c: char)
    ensures
        final(s)@ == old(s)@.push(c),
;

/// The characters of `s`, in order.
pub fn str_to_chars(s: &str) -> (out: Vec<char>)
    ensures
        out@ == s@,
{
    let mut out: Vec<char> = Vec::new();
    for c in it: s.chars()
        invariant
            it.seq() == s@,
            out@ == s@.take(it.index()),
    {
        out.push(c);
        assert(s@.take(it.index() + 1) == s@.take(it.index()).push(c));
    }
    assert(s@.take(s@.len() as int) == s@);
    out
}

/// The string made of the characters of `v`, in order.
pub fn chars_to_string(v: &Vec<char>) -> (out: String)
    ensures
        out@ == v@,
{
    let mut out = String::new();
    let mut i: usize = 0;
    while i < v.len()
        invariant
            i <= v.len(),
            out@ == v@.take(i as int),
        decreases v.len() - i,
    {
        out.push(v[i]);
        i += 1;
        assert(v@.take(i as int) == v@.take(i - 1).push(v@[i - 1]));
    }
    assert(v@.take(v.len() as int) == v@);
    out
}

/// The texts of a list of character vectors.
pub open spec fn texts(v: Seq<Vec<char>>) -> Seq<Seq<char>> {
    v.map_values(|x: Vec<char>| x@)
}

/// The texts of a list of strings.
pub open spec fn strs(v: Seq<String>) -> Seq<Seq<char>> {
    v.map_values(|x: String| x@)
}

/// The texts of a list of lists of character vectors.
pub open spec fn nested_texts(v: Seq<Vec<Vec<char>>>) -> Seq<Seq<Seq<char>>> {
    v.map_values(|w: Vec<Vec<char>>| texts(w@))
}

pub proof fn lemma_texts_push(v: Seq<Vec<char>>, x: Vec<char>)
    ensures
        texts(v.push(x)) == texts(v).push(x@),
{
    assert(texts(v.push(x)) =~= texts(v).push(x@));
}

pub proof fn lemma_strs_push(v: Seq<String>, x: String)
    ensures
        strs(v.push(x)) == strs(v).push(x@),
{
    assert(strs(v.push(x)) =~= strs(v).push(x@));
}

pub proof fn lemma_nested_texts_push(v: Seq<Vec<Vec<char>>>, x: Vec<Vec<char>>)
    ensures
        nested_texts(v.push(x)) == nested_texts(v).push(texts(x@)),
{
    assert(nested_texts(v.push(x)) =~= nested_texts(v).push(texts(x@)));
}

/// Whether two character vectors hold the same text.
pub fn same_chars(a: &Vec<char>, b: &Vec<char>) -> (same: bool)
    ensures
        same == (a@ == b@),
{
    if a.len() != b.len() {
        return false;
    }
    let mut i: usize = 0;
    while i < a.len()
        invariant
            i <= a.len() == b.len(),
            a@.take(i as int) == b@.take(i as int),
        decreases a.len() - i,
    {
        if a[i] != b[i] {
            return false;
        }
        i += 1;
        assert(a@.take(i as int) == a@.take(i - 1).push(a@[i - 1]));
        assert(b@.take(i as int) == b@.take(i - 1).push(b@[i - 1]));
    }
    assert(a@.take(a@.len() as int) == a@);
    assert(b@.take(b@.len() as int) == b@);
    true
}

/// A copy of the characters `a`.
pub fn copy_chars(a: &Vec<char>) -> (out: Vec<char>)
    ensures
        out@ == a@,
{
    copy_of(a)
}

/// The one-character text `c`.
pub fn one_char(c: char) -> (out: Vec<char>)
    ensures
        out@ == seq![c],
{
    let mut out: Vec<char> = Vec::new();
    out.push(c);
    out
}

/// Whether the characters `a` are the one character `c`.
pub fn is_char(a: &Vec<char>, c: char) -> (b: bool)
    ensures
        b == (a@ == seq![c]),
{
    let b = a.len() == 1 && a[0] == c;
    proof {
        if b {
            assert(a@ =~= seq![c]);
        }
    }
    b
}

/// The strings of `v` as characters.
pub fn strings_to_chars(v: &Vec<String>) -> (out: Vec<Vec<char>>)
    ensures
        texts(out@) == strs(v@),
{
    let mut out: Vec<Vec<char>> = Vec::new();
    let mut i: usize = 0;
    assert(texts(out@) =~= strs(v@.take(0)));
    while i < v.len()
        invariant
            i <= v.len(),
            texts(out@) == strs(v@.take(i as int)),
        decreases v.len() - i,
    {
        let x = str_to_chars(v[i].as_str());
        proof {
            lemma_texts_push(out@, x);
            lemma_strs_push(v@.take(i as int), v@[i as int]);
            assert(v@.take(i + 1) == v@.take(i as int).push(v@[i as int]));
        }
        out.push(x);
        i += 1;
    }
    assert(v@.take(v@.len() as int) == v@);
    out
}

/// The character vectors of `v` as strings.
pub fn chars_to_strings(v: &Vec<Vec<char>>) -> (out: Vec<String>)
    ensures
        strs(out@) == texts(v@),
{
    let mut out: Vec<String> = Vec::new();
    let mut i: usize = 0;
    assert(strs(out@) =~= texts(v@.take(0)));
    while i < v.len()
        invariant
            i <= v.len(),
            strs(out@) == texts(v@.take(i as int)),
        decreases v.len() - i,
    {
        let x = chars_to_string(&v[i]);
        proof {
            lemma_strs_push(out@, x);
            lemma_texts_push(v@.take(i as int), v@[i as int]);
            assert(v@.take(i + 1) == v@.take(i as int).push(v@[i as int]));
        }
        out.push(x);
        i += 1;
    }
    assert(v@.take(v@.len() as int) == v@);
    out
}

} // verus!
