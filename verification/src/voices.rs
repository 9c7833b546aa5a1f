//! The voices of a holder as plain values, and what loading, unloading and
//! making resident do to them.

use vstd::prelude::*;
use crate::style::StyleTable;
use crate::tts::{TTSModel, Voice};

verus! {

/// The voices of a list of models.
pub open spec fn voices_of<S>(models: Seq<TTSModel<S>>) -> Seq<Voice<S>> {
    models.map_values(|m: TTSModel<S>| m@)
}

/// The place of the voice `ident` among the first `n` of `voices`.
pub open spec fn found_upto<S>(voices: Seq<Voice<S>>, ident: Seq<char>, n: int) -> Option<int>
    decreases n,
{
    if n <= 0 {
        None
    } else {
        match found_upto(voices, ident, n - 1) {
            Some(i) => Some(i),
            None => if voices[n - 1].ident == ident {
                Some(n - 1)
            } else {
                None
            },
        }
    }
}

/// The place of the voice `ident` among `voices`.
pub open spec fn found<S>(voices: Seq<Voice<S>>, ident: Seq<char>) -> Option<int> {
    found_upto(voices, ident, voices.len() as int)
}

/// How many of the first `n` of `voices` are resident.
pub open spec fn resident_upto<S>(voices: Seq<Voice<S>>, n: int) -> nat
    decreases n,
{
    if n <= 0 {
        0
    } else {
        resident_upto(voices, n - 1) + if voices[n - 1].session is Some {
            1nat
        } else {
            0nat
        }
    }
}

/// How many of `voices` are resident.
pub open spec fn resident_count<S>(voices: Seq<Voice<S>>) -> nat {
    resident_upto(voices, voices.len() as int)
}

/// The place of the first resident voice among the first `n` of `voices`.
pub open spec fn first_resident_upto<S>(voices: Seq<Voice<S>>, n: int) -> Option<int>
    decreases n,
{
    if n <= 0 {
        None
    } else {
        match first_resident_upto(voices, n - 1) {
            Some(i) => Some(i),
            None => if voices[n - 1].session is Some {
                Some(n - 1)
            } else {
                None
            },
        }
    }
}

/// The place of the resident voice that was loaded first.
pub open spec fn first_resident<S>(voices: Seq<Voice<S>>) -> Option<int> {
    first_resident_upto(voices, voices.len() as int)
}

/// Whether one more voice may become resident.
pub open spec fn budget_allows<S>(voices: Seq<Voice<S>>, limit: Option<usize>) -> bool {
    match limit {
        Some(max) => resident_count(voices) < max,
        None => true,
    }
}

/// No two voices have one name.
pub open spec fn names_differ<S>(voices: Seq<Voice<S>>) -> bool {
    forall|i: int, j: int|
        0 <= i < j < voices.len() ==> (#[trigger] voices[i]).ident != (#[trigger] voices[j]).ident
}

/// What holds of the voices of a holder at all times: no two have one
/// name; where a limit is set, no more than that are resident and each has
/// its bytes; where none is set, each is resident.
pub open spec fn voices_wf<S>(voices: Seq<Voice<S>>, limit: Option<usize>) -> bool {
    &&& names_differ(voices)
    &&& match limit {
        Some(max) => resident_count(voices) <= max && forall|i: int|
            0 <= i < voices.len() ==> (#[trigger] voices[i]).bytes is Some,
        None => forall|i: int| 0 <= i < voices.len() ==> (#[trigger] voices[i]).session is Some,
    }
}

/// The voices after a voice is loaded: the new voice stands last. It keeps
/// its bytes where a limit is set.
pub open spec fn added<S>(
    voices: Seq<Voice<S>>,
    limit: Option<usize>,
    ident: Seq<char>,
    style: StyleTable,
    bytes: Seq<u8>,
    session: Option<S>,
) -> Seq<Voice<S>> {
    voices.push(
        Voice {
            ident,
            session,
            style,
            bytes: if limit is Some {
                Some(bytes)
            } else {
                None
            },
        },
    )
}

/// The voices without the voice `ident`.
pub open spec fn removed<S>(voices: Seq<Voice<S>>, ident: Seq<char>) -> Seq<Voice<S>> {
    match found(voices, ident) {
        Some(i) => voices.remove(i),
        None => voices,
    }
}

/// The voices with voice `i` not resident.
pub open spec fn without_session<S>(voices: Seq<Voice<S>>, i: int) -> Seq<Voice<S>> {
    voices.update(i, Voice { session: None, ..voices[i] })
}

/// The voices after the resident voice that was loaded first gave up its
/// model. The voice stays.
pub open spec fn evicted<S>(voices: Seq<Voice<S>>) -> Seq<Voice<S>> {
    match first_resident(voices) {
        Some(i) => without_session(voices, i),
        None => voices,
    }
}

/// The voices after voice `i`, which was not resident, got the model
/// `session`: where the budget did not allow one more, the resident voice
/// that was loaded first gave up its model before.
pub open spec fn installed<S>(voices: Seq<Voice<S>>, limit: Option<usize>, i: int, session: S) -> Seq<
    Voice<S>,
> {
    let room = if budget_allows(voices, limit) {
        voices
    } else {
        evicted(voices)
    };
    room.update(i, Voice { session: Some(session), ..room[i] })
}

/// Whether the voice `ident` is loaded and resident.
pub open spec fn is_resident_in<S>(voices: Seq<Voice<S>>, ident: Seq<char>) -> bool {
    match found(voices, ident) {
        Some(i) => voices[i].session is Some,
        None => false,
    }
}

pub proof fn lemma_found_bounds<S>(voices: Seq<Voice<S>>, ident: Seq<char>, n: int)
    requires
        0 <= n <= voices.len(),
    ensures
        match found_upto(voices, ident, n) {
            Some(i) => 0 <= i < n && voices[i].ident == ident,
            None => forall|k: int| 0 <= k < n ==> (#[trigger] voices[k]).ident != ident,
        },
    decreases n,
{
    if n > 0 {
        lemma_found_bounds(voices, ident, n - 1);
    }
}

pub proof fn lemma_found_stays<S>(voices: Seq<Voice<S>>, ident: Seq<char>, n: int, m: int)
    requires
        0 <= n <= m,
        found_upto(voices, ident, n) is Some,
    ensures
        found_upto(voices, ident, m) == found_upto(voices, ident, n),
    decreases m - n,
{
    if n < m {
        lemma_found_stays(voices, ident, n, m - 1);
    }
}

pub proof fn lemma_found_same_names<S>(a: Seq<Voice<S>>, b: Seq<Voice<S>>, ident: Seq<char>, n: int)
    requires
        a.len() == b.len(),
        0 <= n <= a.len(),
        forall|k: int| 0 <= k < a.len() ==> (#[trigger] b[k]).ident == a[k].ident,
    ensures
        found_upto(b, ident, n) == found_upto(a, ident, n),
    decreases n,
{
    if n > 0 {
        lemma_found_same_names(a, b, ident, n - 1);
        assert(b[n - 1].ident == a[n - 1].ident);
    }
}

pub proof fn lemma_first_resident_bounds<S>(voices: Seq<Voice<S>>, n: int)
    requires
        0 <= n <= voices.len(),
    ensures
        match first_resident_upto(voices, n) {
            Some(i) => 0 <= i < n && voices[i].session is Some && forall|k: int|
                0 <= k < i ==> (#[trigger] voices[k]).session is None,
            None => forall|k: int| 0 <= k < n ==> (#[trigger] voices[k]).session is None,
        },
        first_resident_upto(voices, n) is None <==> resident_upto(voices, n) == 0,
        resident_upto(voices, n) <= n,
    decreases n,
{
    if n > 0 {
        lemma_first_resident_bounds(voices, n - 1);
    }
}

pub proof fn lemma_first_resident_stays<S>(voices: Seq<Voice<S>>, n: int, m: int)
    requires
        0 <= n <= m,
        first_resident_upto(voices, n) is Some,
    ensures
        first_resident_upto(voices, m) == first_resident_upto(voices, n),
    decreases m - n,
{
    if n < m {
        lemma_first_resident_stays(voices, n, m - 1);
    }
}

proof fn lemma_resident_push<S>(voices: Seq<Voice<S>>, v: Voice<S>, n: int)
    requires
        0 <= n <= voices.len(),
    ensures
        resident_upto(voices.push(v), n) == resident_upto(voices, n),
    decreases n,
{
    let after = voices.push(v);
    if n > 0 {
        lemma_resident_push(voices, v, n - 1);
        assert(after[n - 1] == voices[n - 1]);
        assert(resident_upto(after, n) == resident_upto(after, n - 1) + if after[n - 1].session
            is Some {
            1int
        } else {
            0int
        });
    }
}

proof fn lemma_resident_update<S>(voices: Seq<Voice<S>>, i: int, v: Voice<S>, n: int)
    requires
        0 <= i < voices.len(),
        0 <= n <= voices.len(),
    ensures
        resident_upto(voices.update(i, v), n) == resident_upto(voices, n) + if i < n {
            (if v.session is Some {
                1int
            } else {
                0int
            }) - (if voices[i].session is Some {
                1int
            } else {
                0int
            })
        } else {
            0int
        },
    decreases n,
{
    let after = voices.update(i, v);
    if n > 0 {
        lemma_resident_update(voices, i, v, n - 1);
        assert(after[n - 1] == if n - 1 == i {
            v
        } else {
            voices[n - 1]
        });
        assert(resident_upto(after, n) == resident_upto(after, n - 1) + if after[n - 1].session
            is Some {
            1int
        } else {
            0int
        });
        assert(resident_upto(voices, n) == resident_upto(voices, n - 1) + if voices[n
            - 1].session is Some {
            1int
        } else {
            0int
        });
    }
}

proof fn lemma_resident_remove<S>(voices: Seq<Voice<S>>, i: int, n: int)
    requires
        0 <= i < voices.len(),
        0 <= n <= voices.len() - 1,
    ensures
        resident_upto(voices.remove(i), n) == if n <= i {
            resident_upto(voices, n) as int
        } else {
            resident_upto(voices, n + 1) - if voices[i].session is Some {
                1int
            } else {
                0int
            }
        },
    decreases n,
{
    let after = voices.remove(i);
    if n > 0 {
        lemma_resident_remove(voices, i, n - 1);
        let here: int = if after[n - 1].session is Some {
            1
        } else {
            0
        };
        assert(resident_upto(after, n) == resident_upto(after, n - 1) + here);
        if n - 1 < i {
            assert(after[n - 1] == voices[n - 1]);
            assert(resident_upto(voices, n) == resident_upto(voices, n - 1) + here);
        } else {
            assert(after[n - 1] == voices[n]);
            assert(resident_upto(voices, n + 1) == resident_upto(voices, n) + here);
            if n - 1 == i {
                assert(resident_upto(voices, n) == resident_upto(voices, n - 1) + if voices[i].session
                    is Some {
                    1int
                } else {
                    0int
                });
            }
        }
    } else {
        assert(resident_upto(after, 0) == 0);
        assert(resident_upto(voices, 0) == 0);
    }
}

proof fn lemma_resident_counts<S>(voices: Seq<Voice<S>>, n: int, a: int)
    requires
        0 <= a < n <= voices.len(),
        voices[a].session is Some,
    ensures
        resident_upto(voices, n) >= 1,
        resident_upto(voices, n) == 1 ==> forall|k: int|
            0 <= k < n && k != a ==> (#[trigger] voices[k]).session is None,
    decreases n,
{
    if a < n - 1 {
        lemma_resident_counts(voices, n - 1, a);
    } else {
        lemma_first_resident_bounds(voices, n - 1);
    }
}

/// Loading a voice keeps the voices well-formed, where its name is new and
/// it comes with a model only if the budget allows one more. The voice is
/// then found under its name, so that loading it again changes nothing.
pub proof fn lemma_added_wf<S>(
    voices: Seq<Voice<S>>,
    limit: Option<usize>,
    ident: Seq<char>,
    style: StyleTable,
    bytes: Seq<u8>,
    session: Option<S>,
)
    requires
        voices_wf(voices, limit),
        found(voices, ident) is None,
        limit is None ==> session is Some,
        session is Some ==> budget_allows(voices, limit),
    ensures
        voices_wf(added(voices, limit, ident, style, bytes, session), limit),
        found(added(voices, limit, ident, style, bytes, session), ident) == Some(
            voices.len() as int,
        ),
{
    let after = added(voices, limit, ident, style, bytes, session);
    lemma_found_bounds(voices, ident, voices.len() as int);
    lemma_resident_push(voices, after.last(), voices.len() as int);
    lemma_found_bounds(after, ident, after.len() as int);
    assert(after[voices.len() as int].ident == ident);
}

/// Unloading a voice keeps the voices well-formed, and the voice is gone.
pub proof fn lemma_removed_wf<S>(voices: Seq<Voice<S>>, limit: Option<usize>, ident: Seq<char>)
    requires
        voices_wf(voices, limit),
    ensures
        voices_wf(removed(voices, ident), limit),
        found(removed(voices, ident), ident) is None,
{
    lemma_found_bounds(voices, ident, voices.len() as int);
    match found(voices, ident) {
        Some(i) => {
            let after = voices.remove(i);
            lemma_resident_remove(voices, i, after.len() as int);
            assert forall|a: int, b: int| 0 <= a < b < after.len() implies (
            #[trigger] after[a]).ident != (#[trigger] after[b]).ident by {
                let a0 = if a < i {
                    a
                } else {
                    a + 1
                };
                let b0 = if b < i {
                    b
                } else {
                    b + 1
                };
                assert(after[a] == voices[a0] && after[b] == voices[b0]);
            }
            assert forall|k: int| 0 <= k < after.len() implies (#[trigger] after[k]).ident
                != ident by {
                let k0 = if k < i {
                    k
                } else {
                    k + 1
                };
                assert(after[k] == voices[k0]);
                if k0 < i {
                    assert(voices[k0].ident != voices[i].ident);
                } else {
                    assert(voices[i].ident != voices[k0].ident);
                }
            }
            assert forall|k: int| 0 <= k < after.len() implies (limit is Some ==> (
            #[trigger] after[k]).bytes is Some) && (limit is None ==> after[k].session
                is Some) by {
                let k0 = if k < i {
                    k
                } else {
                    k + 1
                };
                assert(after[k] == voices[k0]);
            }
            assert(found(after, ident) is None) by {
                lemma_found_bounds(after, ident, after.len() as int);
            }
        },
        None => {},
    }
}

/// Making a voice resident keeps the voices well-formed, where the limit
/// is not zero: no more voices are resident than the limit allows, and the
/// voice that gave up its model is still there.
pub proof fn lemma_installed_wf<S>(voices: Seq<Voice<S>>, limit: Option<usize>, i: int, session: S)
    requires
        voices_wf(voices, limit),
        0 <= i < voices.len(),
        voices[i].session is None,
        limit != Some(0usize),
    ensures
        voices_wf(installed(voices, limit, i, session), limit),
        installed(voices, limit, i, session).len() == voices.len(),
        installed(voices, limit, i, session)[i].session == Some(session),
        forall|k: int|
            0 <= k < voices.len() ==> (#[trigger] installed(voices, limit, i, session)[k]).ident
                == voices[k].ident && installed(voices, limit, i, session)[k].bytes
                == voices[k].bytes && installed(voices, limit, i, session)[k].style
                == voices[k].style,
{
    let n = voices.len() as int;
    lemma_first_resident_bounds(voices, n);
    let room = if budget_allows(voices, limit) {
        voices
    } else {
        evicted(voices)
    };
    if !budget_allows(voices, limit) {
        let e = first_resident(voices)->0;
        lemma_resident_update(voices, e, Voice { session: None, ..voices[e] }, n);
    }
    let after = room.update(i, Voice { session: Some(session), ..room[i] });
    lemma_resident_update(room, i, Voice { session: Some(session), ..room[i] }, n);
    assert(after == installed(voices, limit, i, session));
    assert forall|a: int, b: int| 0 <= a < b < after.len() implies (#[trigger] after[a]).ident != (
    #[trigger] after[b]).ident by {
        assert(after[a].ident == voices[a].ident && after[b].ident == voices[b].ident);
    }
    assert forall|k: int| 0 <= k < after.len() implies (#[trigger] after[k]).bytes
        == voices[k].bytes by {}
}

/// Under a limit of one, a voice that is made resident is then the only
/// resident voice, and every voice is still loaded, with its name, its
/// style table and its bytes.
pub proof fn lemma_one_resident<S>(voices: Seq<Voice<S>>, i: int, session: S)
    requires
        voices_wf(voices, Some(1usize)),
        0 <= i < voices.len(),
        voices[i].session is None,
    ensures
        ({
            let after = installed(voices, Some(1usize), i, session);
            &&& after.len() == voices.len()
            &&& forall|k: int|
                0 <= k < voices.len() ==> (#[trigger] after[k]).ident == voices[k].ident
                    && after[k].bytes == voices[k].bytes && after[k].style == voices[k].style && (
                after[k].session is Some <==> k == i)
        }),
{
    let n = voices.len() as int;
    let after = installed(voices, Some(1usize), i, session);
    lemma_first_resident_bounds(voices, n);
    match first_resident(voices) {
        Some(e) => {
            lemma_resident_counts(voices, n, e);
            assert(!budget_allows(voices, Some(1usize)));
            assert forall|k: int| 0 <= k < n implies (#[trigger] after[k]).session is Some <==> k
                == i by {
                if k != e {
                    assert(voices[k].session is None);
                }
            }
        },
        None => {
            assert(budget_allows(voices, Some(1usize)));
            assert forall|k: int| 0 <= k < n implies (#[trigger] after[k]).session is Some <==> k
                == i by {
                assert(voices[k].session is None);
            }
        },
    }
}

} // verus!
