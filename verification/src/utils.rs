//! Small helpers on lists.

use vstd::prelude::*;

verus! {

/// A copy of the list `v`.
pub fn copy_of<T: Copy>(v: &Vec<T>) -> (out: Vec<T>)
    ensures
        out@ == v@,
{
    let mut out: Vec<T> = Vec::new();
    let mut i: usize = 0;
    while i < v.len()
        invariant
            i <= v.len(),
            out@ == v@.take(i as int),
        decreases v.len() - i,
    {
        out.push(v[i]);
        i += 1;
        assert(v@.take(i as int) == v@.take(i - 1).push(v@[i - 1]));
    }
    assert(v@.take(v@.len() as int) == v@);
    out
}

/// What stands at place `j` of `slice` interspersed with `sep`: the items
/// of `slice` stand at the even places, from the first on, and `sep` at all
/// others, the two last ones among them.
pub open spec fn interspersed_at<T>(slice: Seq<T>, sep: T, j: int) -> T {
    if j % 2 == 0 && j / 2 < slice.len() {
        slice[j / 2]
    } else {
        sep
    }
}

/// `slice` interspersed with `sep`: twice as long as `slice`, and one more.
pub open spec fn interspersed<T>(slice: Seq<T>, sep: T) -> Seq<T> {
    Seq::new(2 * slice.len() + 1, |j: int| interspersed_at(slice, sep, j))
}

/// `slice` with `sep` after each of its items, and one more `sep` at the
/// end. Each item of the result is a clone of the item that `interspersed`
/// has at its place.
pub fn intersperse<T>(slice: &[T], sep: T) -> (result: Vec<T>) where T: Clone
    requires
        2 * slice.len() + 1 <= usize::MAX,
    ensures
        result.len() == 2 * slice.len() + 1,
        forall|j: int|
            0 <= j < result.len() ==> cloned(interspersed_at(slice@, sep, j), #[trigger] result@[j]),
{
    let n = slice.len();
    let total = 2 * n + 1;
    let mut result: Vec<T> = Vec::new();
    let mut j: usize = 0;
    while j < total
        invariant
            j <= total == 2 * n + 1,
            n == slice.len(),
            result.len() == j,
            forall|k: int|
                0 <= k < j ==> cloned(interspersed_at(slice@, sep, k), #[trigger] result@[k]),
        decreases total - j,
    {
        let item = if j % 2 == 0 && j / 2 < n {
            slice[j / 2].clone()
        } else {
            sep.clone()
        };
        result.push(item);
        j += 1;
    }
    result
}

/// `slice` interspersed with `sep`, for numbers.
pub fn intersperse_i64(slice: &Vec<i64>, sep: i64) -> (result: Vec<i64>)
    requires
        2 * slice.len() + 1 <= usize::MAX,
    ensures
        result@ == interspersed(slice@, sep),
{
    let result = intersperse(slice.as_slice(), sep);
    assert(result@ =~= interspersed(slice@, sep));
    result
}

} // verus!
