//! The phonemes of a word, dealt out to its characters.

use vstd::prelude::*;
use crate::jtalk::JTalkProcess;

verus! {

/// The number of phonemes that unit `j` of a word of `n_word` units gets
/// when `n_phone` phonemes are dealt out one by one, each to the first unit
/// that has the fewest.
pub open spec fn share(n_phone: int, n_word: int, j: int) -> int {
    n_phone / n_word + if j < n_phone % n_word {
        1int
    } else {
        0int
    }
}

/// The shares of all units of a word.
pub open spec fn shares(n_phone: nat, n_word: nat) -> Seq<usize> {
    Seq::new(n_word, |j: int| share(n_phone as int, n_word as int, j) as usize)
}

/// The sum of `counts`.
pub open spec fn total(counts: Seq<usize>) -> int
    decreases counts.len(),
{
    if counts.len() == 0 {
        0
    } else {
        total(counts.drop_last()) + counts.last()
    }
}

proof fn lemma_share_step(k: int, w: int)
    requires
        0 <= k,
        0 < w,
    ensures
        0 <= k % w < w,
        forall|j: int|
            0 <= j < w ==> #[trigger] share(k + 1, w, j) == share(k, w, j) + if j == k % w {
                1int
            } else {
                0int
            },
{
    let q = k / w;
    let r = k % w;
    assert(k == q * w + r && 0 <= r < w) by (nonlinear_arith)
        requires
            q == k / w,
            r == k % w,
            0 < w,
            0 <= k,
    ;
    if r + 1 < w {
        assert((k + 1) / w == q && (k + 1) % w == r + 1) by (nonlinear_arith)
            requires
                k == q * w + r,
                0 <= r,
                r + 1 < w,
                0 < w,
        ;
    } else {
        assert((k + 1) / w == q + 1 && (k + 1) % w == 0) by (nonlinear_arith)
            requires
                k == q * w + r,
                r + 1 == w,
                0 < w,
        ;
    }
}

pub proof fn lemma_share_bounds(k: int, w: int, j: int)
    requires
        0 <= k,
        0 < w,
        0 <= j,
    ensures
        0 <= k / w <= share(k, w, j) <= k / w + 1,
        k / w <= k,
        share(k, w, j) <= k,
{
    assert(0 <= k / w <= k && 0 <= k % w < w && k == (k / w) * w + k % w) by (nonlinear_arith)
        requires
            0 <= k,
            0 < w,
    ;
    if j < k % w {
        assert(k / w + 1 <= k) by (nonlinear_arith)
            requires
                k == (k / w) * w + k % w,
                0 <= j < k % w,
                0 < w,
                0 <= k / w,
        ;
    }
}

pub proof fn lemma_total_add(a: Seq<usize>, b: Seq<usize>)
    ensures
        total(a + b) == total(a) + total(b),
    decreases b.len(),
{
    if b.len() == 0 {
        assert(a + b == a);
    } else {
        lemma_total_add(a, b.drop_last());
        assert((a + b).drop_last() == a + b.drop_last());
        assert((a + b).last() == b.last());
    }
}

proof fn lemma_total_shares_upto(n_phone: nat, n_word: nat, j: nat)
    requires
        0 < n_word,
        j <= n_word,
        n_phone <= usize::MAX,
    ensures
        total(shares(n_phone, n_word).take(j as int)) == (n_phone / n_word) * j + if j < n_phone
            % n_word {
            j
        } else {
            n_phone % n_word
        },
    decreases j,
{
    let all = shares(n_phone, n_word);
    if j == 0 {
        assert(all.take(0) == Seq::<usize>::empty());
        assert((n_phone / n_word) * 0 == 0) by (nonlinear_arith);
    } else {
        lemma_total_shares_upto(n_phone, n_word, (j - 1) as nat);
        let here = all.take(j as int);
        assert(here.drop_last() == all.take(j - 1));
        lemma_share_bounds(n_phone as int, n_word as int, j - 1);
        assert(here.last() == share(n_phone as int, n_word as int, j - 1));
        let q = n_phone / n_word;
        assert(q * j == q * (j - 1) + q) by (nonlinear_arith);
    }
}

/// The shares of a word add up to its phonemes.
pub proof fn lemma_total_shares(n_phone: nat, n_word: nat)
    requires
        0 < n_word,
        n_phone <= usize::MAX,
    ensures
        total(shares(n_phone, n_word)) == n_phone,
        shares(n_phone, n_word).len() == n_word,
{
    lemma_total_shares_upto(n_phone, n_word, n_word);
    let all = shares(n_phone, n_word);
    assert(all.take(n_word as int) == all);
    let q = n_phone / n_word;
    let r = n_phone % n_word;
    assert(n_phone == q * n_word + r && 0 <= r < n_word) by (nonlinear_arith)
        requires
            q == n_phone / n_word,
            r == n_phone % n_word,
            0 < n_word,
    ;
}

pub proof fn lemma_total_update(counts: Seq<usize>, v: usize)
    requires
        counts.len() > 0,
    ensures
        total(counts.update(0, v)) == total(counts) - counts[0] + v,
    decreases counts.len(),
{
    if counts.len() == 1 {
        assert(counts.update(0, v).drop_last() == Seq::<usize>::empty());
        assert(counts.drop_last() == Seq::<usize>::empty());
    } else {
        lemma_total_update(counts.drop_last(), v);
        assert(counts.update(0, v).drop_last() == counts.drop_last().update(0, v));
    }
}

impl JTalkProcess {
    /// Deals `n_phone` phonemes out to the `n_word` units of a word, one by
    /// one, each to the first unit that has the fewest.
    pub fn distribute_phone(n_phone: usize, n_word: usize) -> (counts: Vec<usize>)
        ensures
            counts@ == shares(n_phone as nat, n_word as nat),
    {
        let mut counts: Vec<usize> = Vec::new();
        let mut j: usize = 0;
        while j < n_word
            invariant
                j <= n_word,
                counts@ == Seq::new(j as nat, |j: int| 0usize),
            decreases n_word - j,
        {
            counts.push(0);
            j += 1;
            assert(counts@ =~= Seq::new(j as nat, |j: int| 0usize));
        }
        if n_word == 0 {
            assert(counts@ =~= shares(n_phone as nat, n_word as nat));
            return counts;
        }
        let mut given: usize = 0;
        proof {
            assert forall|j: int| 0 <= j < n_word implies counts@[j] == share(
                0,
                n_word as int,
                j,
            ) by {
                lemma_share_bounds(0, n_word as int, j);
            }
        }
        while given < n_phone
            invariant
                given <= n_phone,
                0 < n_word,
                counts@.len() == n_word,
                forall|j: int|
                    0 <= j < n_word ==> counts@[j] == #[trigger] share(
                        given as int,
                        n_word as int,
                        j,
                    ),
            decreases n_phone - given,
        {
            proof {
                lemma_share_step(given as int, n_word as int);
            }
            let ghost turn = (given as int) % (n_word as int);
            let ghost least = (given as int) / (n_word as int);
            let mut min_task: usize = counts[0];
            let mut m: usize = 1;
            proof {
                lemma_share_bounds(given as int, n_word as int, 0);
                assert(counts@[0] == share(given as int, n_word as int, 0));
            }
            while m < n_word
                invariant
                    1 <= m <= n_word,
                    counts@.len() == n_word,
                    0 <= turn < n_word,
                    turn == (given as int) % (n_word as int),
                    least == (given as int) / (n_word as int),
                    forall|j: int|
                        0 <= j < n_word ==> counts@[j] == #[trigger] share(
                            given as int,
                            n_word as int,
                            j,
                        ),
                    min_task == if turn < m {
                        least
                    } else {
                        least + 1
                    },
                decreases n_word - m,
            {
                assert(counts@[m as int] == share(given as int, n_word as int, m as int));
                if counts[m] < min_task {
                    min_task = counts[m];
                }
                m += 1;
            }
            let mut min_index: usize = 0;
            while counts[min_index] != min_task
                invariant
                    0 <= min_index <= turn < n_word,
                    counts@.len() == n_word,
                    turn == (given as int) % (n_word as int),
                    least == (given as int) / (n_word as int),
                    min_task == least,
                    forall|j: int|
                        0 <= j < n_word ==> counts@[j] == #[trigger] share(
                            given as int,
                            n_word as int,
                            j,
                        ),
                decreases turn - min_index,
            {
                assert(counts@[min_index as int] == share(
                    given as int,
                    n_word as int,
                    min_index as int,
                ));
                min_index += 1;
            }
            proof {
                assert(counts@[min_index as int] == share(
                    given as int,
                    n_word as int,
                    min_index as int,
                ));
                assert(min_index == turn);
                lemma_share_bounds(given as int, n_word as int, min_index as int);
            }
            let ghost before = counts@;
            let raised = counts[min_index] + 1;
            counts.set(min_index, raised);
            given += 1;
            proof {
                assert forall|j: int| 0 <= j < n_word implies counts@[j] == #[trigger] share(
                    given as int,
                    n_word as int,
                    j,
                ) by {
                    assert(before[j] == share(given - 1, n_word as int, j));
                    assert(share(given - 1 + 1, n_word as int, j) == share(
                        given - 1,
                        n_word as int,
                        j,
                    ) + if j == turn {
                        1int
                    } else {
                        0int
                    });
                }
            }
        }
        proof {
            assert forall|j: int| 0 <= j < n_word implies counts@[j] == shares(
                n_phone as nat,
                n_word as nat,
            )[j] by {
                assert(counts@[j] == share(n_phone as int, n_word as int, j));
            }
            assert(counts@ =~= shares(n_phone as nat, n_word as nat));
        }
        counts
    }
}

} // verus!
