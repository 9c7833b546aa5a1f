//! The tones of an accent phrase: low and high.

use vstd::prelude::*;
use crate::error::Error;
use crate::jtalk::JTalkProcess;

verus! {

/// The tones that occur in `tones`.
pub open spec fn tone_set(tones: Seq<i32>) -> Set<int> {
    Set::new(|t: int| exists|i: int| 0 <= i < tones.len() && tones[i] == t)
}

/// The tones of one accent phrase, brought to low and high: tones that are
/// all 0, or 0 and 1, stay; tones -1 and 0 are raised by one; no other
/// phrase has tones.
pub open spec fn fixed_tones(tones: Seq<i32>) -> Option<Seq<i32>> {
    if tone_set(tones) == set![0int] || tone_set(tones) == set![0int, 1int] {
        Some(tones)
    } else if tone_set(tones) == set![-1int, 0int] {
        Some(tones.map_values(|t: i32| (t + 1) as i32))
    } else {
        None
    }
}

/// Whether `tones` holds two tones and no more.
pub open spec fn two_toned(tones: Seq<i32>) -> bool {
    exists|a: int, b: int|
        a != b && #[trigger] tone_set(tones).contains(a) && #[trigger] tone_set(tones).contains(b)
            && forall|i: int| 0 <= i < tones.len() ==> tones[i] == a || tones[i] == b
}

/// The message of the error for an accent phrase whose tones cannot be
/// fixed. It tells a phrase of two tones from one of none, of one tone or
/// of three and more.
pub open spec fn tone_refusal(tones: Seq<i32>) -> Seq<char> {
    if two_toned(tones) {
        "Invalid tone values 0"@
    } else {
        "Invalid tone values 1"@
    }
}

/// The tones of a fixed accent phrase are low and high: as many as
/// before, each 0 or 1, and each one more than before where the phrase fell
/// from 0 to -1.
pub proof fn lemma_fixed_tones_low_or_high(tones: Seq<i32>)
    ensures
        match fixed_tones(tones) {
            Some(fixed) => fixed.len() == tones.len() && forall|i: int|
                0 <= i < fixed.len() ==> (#[trigger] fixed[i] == 0 || fixed[i] == 1) && fixed[i]
                    == tones[i] + if tone_set(tones).contains(-1) {
                    1int
                } else {
                    0int
                },
            None => true,
        },
{
    let set = tone_set(tones);
    match fixed_tones(tones) {
        Some(fixed) => {
            assert forall|i: int| 0 <= i < fixed.len() implies (#[trigger] fixed[i] == 0
                || fixed[i] == 1) && fixed[i] == tones[i] + if set.contains(-1) {
                1int
            } else {
                0int
            } by {
                assert(set.contains(tones[i] as int));
                if set == set![-1int, 0int] {
                    assert(set![-1int, 0int].contains(-1));
                } else {
                    assert(!set![0int].contains(-1) && !set![0int, 1int].contains(-1));
                }
            }
        },
        None => {},
    }
}

/// An accent phrase has no tones to fix where it is empty, where it holds
/// a tone other than -1, 0 and 1, where it holds -1 and 1, and where it does
/// not hold 0.
pub proof fn lemma_fixed_tones_refuses(tones: Seq<i32>, i: int, j: int)
    requires
        tones.len() == 0 || (0 <= i < tones.len() && (tones[i] < -1 || tones[i] > 1)) || (0 <= i
            < tones.len() && 0 <= j < tones.len() && tones[i] == -1 && tones[j] == 1) || (
        forall|k: int| 0 <= k < tones.len() ==> tones[k] != 0),
    ensures
        fixed_tones(tones) is None,
{
    let set = tone_set(tones);
    assert(set![0int].contains(0) && set![0int, 1int].contains(0) && set![-1int, 0int].contains(0));
    if tones.len() == 0 {
        assert(!set.contains(0));
    } else if 0 <= i < tones.len() && (tones[i] < -1 || tones[i] > 1) {
        let t = tones[i] as int;
        assert(set.contains(t));
        assert(!set![0int].contains(t) && !set![0int, 1int].contains(t) && !set![
            -1int,
            0int,
        ].contains(t));
    } else if 0 <= i < tones.len() && 0 <= j < tones.len() && tones[i] == -1 && tones[j] == 1 {
        assert(set.contains(-1) && set.contains(1));
        assert(!set![0int].contains(1) && !set![0int, 1int].contains(-1) && !set![
            -1int,
            0int,
        ].contains(1));
    } else {
        assert(!set.contains(0));
    }
}

/// Whether `tones` holds two tones and no more.
fn is_two_toned(tones: &Vec<i32>) -> (two: bool)
    ensures
        two == two_toned(tones@),
{
    if tones.len() == 0 {
        assert(!two_toned(tones@)) by {
            assert(forall|a: int| !tone_set(tones@).contains(a));
        }
        return false;
    }
    let first = tones[0];
    let mut second: Option<i32> = None;
    let mut more = false;
    let ghost mut at_second: int = 0;
    let ghost mut at_third: int = 0;
    let mut i: usize = 1;
    while i < tones.len()
        invariant
            1 <= i <= tones.len(),
            first == tones@[0],
            second is None ==> !more && forall|k: int| 0 <= k < i ==> tones@[k] == first,
            second is Some ==> second->0 != first && 0 <= at_second < i && tones@[at_second]
                == second->0,
            (second is Some && !more) ==> forall|k: int|
                0 <= k < i ==> tones@[k] == first || tones@[k] == second->0,
            (second is Some && more) ==> 0 <= at_third < i && tones@[at_third] != first
                && tones@[at_third] != second->0,
        decreases tones.len() - i,
    {
        let t = tones[i];
        match second {
            None => {
                if t != first {
                    second = Some(t);
                    proof {
                        at_second = i as int;
                    }
                }
            },
            Some(b) => {
                if t != first && t != b && !more {
                    more = true;
                    proof {
                        at_third = i as int;
                    }
                }
            },
        }
        i += 1;
    }
    let ghost set = tone_set(tones@);
    match second {
        None => {
            assert(!two_toned(tones@)) by {
                if two_toned(tones@) {
                    let (a, b) = choose|a: int, b: int|
                        a != b && #[trigger] set.contains(a) && #[trigger] set.contains(b) && forall|
                            i: int,
                        |
                            0 <= i < tones@.len() ==> tones@[i] == a || tones@[i] == b;
                    let ia = choose|k: int| 0 <= k < tones@.len() && tones@[k] == a;
                    let ib = choose|k: int| 0 <= k < tones@.len() && tones@[k] == b;
                    assert(tones@[ia] == first && tones@[ib] == first);
                }
            }
            false
        },
        Some(b) => {
            if more {
                assert(!two_toned(tones@)) by {
                    if two_toned(tones@) {
                        let (x, y) = choose|x: int, y: int|
                            x != y && #[trigger] set.contains(x) && #[trigger] set.contains(y)
                                && forall|i: int|
                                0 <= i < tones@.len() ==> tones@[i] == x || tones@[i] == y;
                        assert(tones@[0] == x || tones@[0] == y);
                        assert(tones@[at_second] == x || tones@[at_second] == y);
                        assert(tones@[at_third] == x || tones@[at_third] == y);
                    }
                }
                false
            } else {
                assert(two_toned(tones@)) by {
                    assert(set.contains(first as int)) by {
                        assert(tones@[0] == first);
                    }
                    assert(set.contains(b as int)) by {
                        assert(tones@[at_second] == b);
                    }
                }
                true
            }
        },
    }
}

impl JTalkProcess {
    /// Brings the tones of one accent phrase to low and high. A phrase
    /// whose tones cannot be fixed is refused with a message that tells a
    /// phrase of two tones from any other.
    pub fn fix_phone_tone(tones: &Vec<i32>) -> (r: Result<Vec<i32>, Error>)
        ensures
            match r {
                Ok(fixed) => fixed_tones(tones@) == Some(fixed@),
                Err(e) => fixed_tones(tones@) is None && (e matches Error::ValueError(message)
                    && message@ == tone_refusal(tones@)),
            },
    {
        let mut low: bool = false;
        let mut zero: bool = false;
        let mut high: bool = false;
        let mut other: bool = false;
        let ghost mut at_low: int = 0;
        let ghost mut at_zero: int = 0;
        let ghost mut at_high: int = 0;
        let ghost mut at_other: int = 0;
        let mut i: usize = 0;
        while i < tones.len()
            invariant
                i <= tones.len(),
                low ==> 0 <= at_low < i && tones@[at_low] == -1,
                zero ==> 0 <= at_zero < i && tones@[at_zero] == 0,
                high ==> 0 <= at_high < i && tones@[at_high] == 1,
                other ==> 0 <= at_other < i && tones@[at_other] != -1 && tones@[at_other] != 0
                    && tones@[at_other] != 1,
                !low ==> forall|k: int| 0 <= k < i ==> tones@[k] != -1,
                !zero ==> forall|k: int| 0 <= k < i ==> tones@[k] != 0,
                !high ==> forall|k: int| 0 <= k < i ==> tones@[k] != 1,
                !other ==> forall|k: int|
                    0 <= k < i ==> tones@[k] == -1 || tones@[k] == 0 || tones@[k] == 1,
            decreases tones.len() - i,
        {
            let t = tones[i];
            if t == -1 {
                low = true;
                proof {
                    at_low = i as int;
                }
            } else if t == 0 {
                zero = true;
                proof {
                    at_zero = i as int;
                }
            } else if t == 1 {
                high = true;
                proof {
                    at_high = i as int;
                }
            } else {
                other = true;
                proof {
                    at_other = i as int;
                }
            }
            i += 1;
        }
        let ghost set = tone_set(tones@);
        proof {
            if low {
                assert(set.contains(-1)) by {
                    assert(tones@[at_low] == -1);
                }
            }
            if zero {
                assert(set.contains(0)) by {
                    assert(tones@[at_zero] == 0);
                }
            }
            if high {
                assert(set.contains(1)) by {
                    assert(tones@[at_high] == 1);
                }
            }
            if other {
                assert(set.contains(tones@[at_other] as int));
            }
        }
        if other || !zero || (low && high) {
            proof {
                if other {
                    let t = tones@[at_other] as int;
                    assert(!set![0int].contains(t) && !set![0int, 1int].contains(t) && !set![
                        -1int,
                        0int,
                    ].contains(t));
                } else if !zero {
                    assert(set![0int].contains(0) && set![0int, 1int].contains(0) && set![
                        -1int,
                        0int,
                    ].contains(0));
                    assert(!set.contains(0));
                } else {
                    assert(!set![0int].contains(1) && !set![0int, 1int].contains(-1) && !set![
                        -1int,
                        0int,
                    ].contains(1));
                }
            }
            if is_two_toned(tones) {
                return Err(Error::ValueError("Invalid tone values 0".to_owned()));
            }
            return Err(Error::ValueError("Invalid tone values 1".to_owned()));
        }
        if !low {
            proof {
                if high {
                    assert(set =~= set![0int, 1int]);
                } else {
                    assert(set =~= set![0int]);
                }
            }
            let mut same: Vec<i32> = Vec::new();
            let mut k: usize = 0;
            while k < tones.len()
                invariant
                    k <= tones.len(),
                    same@ == tones@.take(k as int),
                decreases tones.len() - k,
            {
                same.push(tones[k]);
                k += 1;
                assert(tones@.take(k as int) == tones@.take(k - 1).push(tones@[k - 1]));
            }
            assert(tones@.take(tones@.len() as int) == tones@);
            return Ok(same);
        }
        proof {
            assert(set =~= set![-1int, 0int]);
            assert(!(set![-1int, 0int] =~= set![0int])) by {
                assert(set![-1int, 0int].contains(-1));
            }
            assert(!(set![-1int, 0int] =~= set![0int, 1int])) by {
                assert(set![-1int, 0int].contains(-1));
            }
        }
        let mut raised: Vec<i32> = Vec::new();
        let mut k: usize = 0;
        while k < tones.len()
            invariant
                k <= tones.len(),
                forall|j: int| 0 <= j < tones.len() ==> tones@[j] == -1 || tones@[j] == 0,
                raised@ == tones@.take(k as int).map_values(|t: i32| (t + 1) as i32),
            decreases tones.len() - k,
        {
            let t = tones[k];
            raised.push(t + 1);
            k += 1;
            assert(raised@ =~= tones@.take(k as int).map_values(|t: i32| (t + 1) as i32));
        }
        assert(tones@.take(tones@.len() as int) == tones@);
        Ok(raised)
    }
}

} // verus!
