//! Ranking of items by score: highest score first, ties in their original
//! order (the order a stable sort by descending score gives), cut to the
//! first `k` items.
use vstd::prelude::*;

verus! {

/// Item `i` ranks ahead of item `j`: it scores higher, or it scores the same
/// and comes earlier.
pub open spec fn ranks_ahead(scores: Seq<int>, i: int, j: int) -> bool {
    scores[i] > scores[j] || (scores[i] == scores[j] && i < j)
}

/// The smaller of two naturals.
pub open spec fn min_nat(a: nat, b: nat) -> nat {
    if a < b {
        a
    } else {
        b
    }
}

/// `r` lists, best first, the positions of the `min(k, n)` best of the `n`
/// scored items: positions in range, each ranking ahead of the ones after
/// it, and every position left out ranking behind every position listed.
pub open spec fn is_top_ranking(scores: Seq<int>, r: Seq<int>, k: nat) -> bool {
    &&& r.len() == min_nat(k, scores.len())
    &&& forall|p: int| 0 <= p < r.len() ==> 0 <= #[trigger] r[p] < scores.len()
    &&& forall|p: int, q: int|
        #![trigger r[p], r[q]]
        0 <= p < q < r.len() ==> ranks_ahead(scores, r[p], r[q])
    &&& forall|p: int, j: int|
        #![trigger r[p], r.contains(j)]
        0 <= p < r.len() && 0 <= j < scores.len() && !r.contains(j) ==> ranks_ahead(
            scores,
            r[p],
            j,
        )
}

/// The top-`k` ranking of `scores` (it exists and is unique: see
/// `lemma_top_ranking_exists` and `lemma_top_ranking_unique`).
pub open spec fn top_ranking(scores: Seq<int>, k: nat) -> Seq<int> {
    choose|r: Seq<int>| is_top_ranking(scores, r, k)
}

/// Machine integers seen as integers.
pub open spec fn ints(s: Seq<usize>) -> Seq<int> {
    s.map_values(|x: usize| x as int)
}

proof fn lemma_agree_at(scores: Seq<int>, r1: Seq<int>, r2: Seq<int>, k: nat, p: int)
    requires
        is_top_ranking(scores, r1, k),
        is_top_ranking(scores, r2, k),
        0 <= p < r1.len(),
        forall|q: int| 0 <= q < p ==> r1[q] == r2[q],
    ensures
        r1[p] == r2[p],
{
    let a = r1[p];
    let b = r2[p];
    if a != b {
        if r1.contains(b) {
            let q = choose|q: int| 0 <= q < r1.len() && r1[q] == b;
            if q < p {
                assert(r2[q] == b);
                assert(ranks_ahead(scores, r2[q], r2[p]));
            }
            assert(q != p);
            assert(ranks_ahead(scores, r1[p], r1[q]));
        } else {
            assert(ranks_ahead(scores, r1[p], b));
        }
        if r2.contains(a) {
            let q = choose|q: int| 0 <= q < r2.len() && r2[q] == a;
            if q < p {
                assert(r1[q] == a);
                assert(ranks_ahead(scores, r1[q], r1[p]));
            }
            assert(q != p);
            assert(ranks_ahead(scores, r2[p], r2[q]));
        } else {
            assert(ranks_ahead(scores, r2[p], a));
        }
    }
}

proof fn lemma_agree_upto(scores: Seq<int>, r1: Seq<int>, r2: Seq<int>, k: nat, p: int)
    requires
        is_top_ranking(scores, r1, k),
        is_top_ranking(scores, r2, k),
        0 <= p <= r1.len(),
    ensures
        forall|q: int| 0 <= q < p ==> r1[q] == r2[q],
    decreases p,
{
    if p > 0 {
        lemma_agree_upto(scores, r1, r2, k, p - 1);
        lemma_agree_at(scores, r1, r2, k, p - 1);
    }
}

/// Law: for given scores and cut there is only one top ranking, so what is
/// retrieved is determined by the scores alone.
pub proof fn lemma_top_ranking_unique(scores: Seq<int>, r1: Seq<int>, r2: Seq<int>, k: nat)
    requires
        is_top_ranking(scores, r1, k),
        is_top_ranking(scores, r2, k),
    ensures
        r1 == r2,
{
    lemma_agree_upto(scores, r1, r2, k, r1.len() as int);
    assert(r1 =~= r2);
}

/// Law: the top ranking for a smaller cut is the start of the one for a
/// larger cut.
pub proof fn lemma_top_ranking_prefix(scores: Seq<int>, r: Seq<int>, k1: nat, k2: nat)
    requires
        is_top_ranking(scores, r, k2),
        k1 <= k2,
    ensures
        is_top_ranking(scores, r.take(min_nat(k1, scores.len()) as int), k1),
{
    let m = min_nat(k1, scores.len()) as int;
    let t = r.take(m);
    assert forall|p: int, j: int|
        #![trigger t[p], t.contains(j)]
        0 <= p < t.len() && 0 <= j < scores.len() && !t.contains(j) implies ranks_ahead(
        scores,
        t[p],
        j,
    ) by {
        assert(t[p] == r[p]);
        if r.contains(j) {
            let q = choose|q: int| 0 <= q < r.len() && r[q] == j;
            if q < m {
                assert(t[q] == j);
            }
            assert(ranks_ahead(scores, r[p], r[q]));
        }
    }
    assert forall|p: int, q: int| #![trigger t[p], t[q]] 0 <= p < q < t.len() implies ranks_ahead(
        scores,
        t[p],
        t[q],
    ) by {
        assert(t[p] == r[p] && t[q] == r[q]);
    }
    assert forall|p: int| 0 <= p < t.len() implies 0 <= #[trigger] t[p] < scores.len() by {
        assert(t[p] == r[p]);
    }
}

/// The best-ranking position below `b` that `r` leaves out, or `-1` when
/// `r` leaves none out.
pub open spec fn best_left_out(scores: Seq<int>, r: Seq<int>, b: int) -> int
    decreases b,
{
    if b <= 0 {
        -1
    } else {
        let m = best_left_out(scores, r, b - 1);
        if r.contains(b - 1) {
            m
        } else if m < 0 {
            b - 1
        } else if ranks_ahead(scores, m, b - 1) {
            m
        } else {
            b - 1
        }
    }
}

proof fn lemma_best_left_out(scores: Seq<int>, r: Seq<int>, b: int)
    ensures
        best_left_out(scores, r, b) < 0 ==> forall|j: int| 0 <= j < b ==> r.contains(j),
        best_left_out(scores, r, b) >= 0 ==> {
            let m = best_left_out(scores, r, b);
            &&& m < b
            &&& !r.contains(m)
            &&& forall|j: int|
                0 <= j < b && !r.contains(j) && j != m ==> #[trigger] ranks_ahead(scores, m, j)
        },
    decreases b,
{
    if b > 0 {
        lemma_best_left_out(scores, r, b - 1);
        let m = best_left_out(scores, r, b - 1);
        if !r.contains(b - 1) && m >= 0 && !ranks_ahead(scores, m, b - 1) {
            assert forall|j: int|
                0 <= j < b && !r.contains(j) && j != b - 1 implies #[trigger] ranks_ahead(
                scores,
                b - 1,
                j,
            ) by {
                if j != m {
                    assert(ranks_ahead(scores, m, j));
                }
            }
        }
    }
}

/// A repetition-free listing of fewer than `n` positions below `n` leaves
/// some position below `n` out.
proof fn lemma_some_left_out(r: Seq<int>, n: int)
    requires
        r.no_duplicates(),
        forall|p: int| 0 <= p < r.len() ==> 0 <= #[trigger] r[p] < n,
        r.len() < n,
    ensures
        exists|j: int| 0 <= j < n && !r.contains(j),
    decreases n,
{
    let last = n - 1;
    if !r.contains(last) {
        assert(0 <= last < n && !r.contains(last));
    } else {
        let q = choose|q: int| 0 <= q < r.len() && r[q] == last;
        let r2 = r.subrange(0, q) + r.subrange(q + 1, r.len() as int);
        assert forall|p: int| 0 <= p < r2.len() implies r2[p] == r[if p < q {
            p
        } else {
            p + 1
        }] by {}
        assert forall|p: int| 0 <= p < r2.len() implies 0 <= #[trigger] r2[p] < last by {
            let pp = if p < q {
                p
            } else {
                p + 1
            };
            assert(r2[p] == r[pp]);
            assert(r[pp] != r[q]);
        }
        assert(r2.no_duplicates()) by {
            assert forall|i: int, j: int|
                0 <= i < r2.len() && 0 <= j < r2.len() && i != j implies r2[i] != r2[j] by {
                let ii = if i < q {
                    i
                } else {
                    i + 1
                };
                let jj = if j < q {
                    j
                } else {
                    j + 1
                };
                assert(r2[i] == r[ii] && r2[j] == r[jj]);
            }
        }
        lemma_some_left_out(r2, last);
        let j = choose|j: int| 0 <= j < last && !r2.contains(j);
        if r.contains(j) {
            let p = choose|p: int| 0 <= p < r.len() && r[p] == j;
            assert(p != q);
            if p < q {
                assert(r2[p] == j);
            } else {
                assert(r2[p - 1] == j);
            }
        }
        assert(0 <= j < n && !r.contains(j));
    }
}

proof fn lemma_top_ranking_no_duplicates(scores: Seq<int>, r: Seq<int>, k: nat)
    requires
        is_top_ranking(scores, r, k),
    ensures
        r.no_duplicates(),
{
    assert forall|i: int, j: int| 0 <= i < r.len() && 0 <= j < r.len() && i != j implies r[i]
        != r[j] by {
        if i < j {
            assert(ranks_ahead(scores, r[i], r[j]));
        } else {
            assert(ranks_ahead(scores, r[j], r[i]));
        }
    }
}

proof fn lemma_top_ranking_exists_upto(scores: Seq<int>, m: nat)
    requires
        m <= scores.len(),
    ensures
        exists|r: Seq<int>| is_top_ranking(scores, r, m),
    decreases m,
{
    if m == 0 {
        assert(is_top_ranking(scores, Seq::<int>::empty(), 0));
    } else {
        let m1 = (m - 1) as nat;
        lemma_top_ranking_exists_upto(scores, m1);
        let r = choose|r: Seq<int>| is_top_ranking(scores, r, m1);
        lemma_top_ranking_no_duplicates(scores, r, m1);
        lemma_some_left_out(r, scores.len() as int);
        let n = scores.len() as int;
        lemma_best_left_out(scores, r, n);
        let best = best_left_out(scores, r, n);
        let j0 = choose|j: int| 0 <= j < n && !r.contains(j);
        assert(best >= 0);
        let r2 = r.push(best);
        assert(r2[r.len() as int] == best);
        assert forall|p: int, j: int|
            #![trigger r2[p], r2.contains(j)]
            0 <= p < r2.len() && 0 <= j < n && !r2.contains(j) implies ranks_ahead(
            scores,
            r2[p],
            j,
        ) by {
            if r.contains(j) {
                let q = choose|q: int| 0 <= q < r.len() && r[q] == j;
                assert(r2[q] == j);
            }
            if p < r.len() {
                assert(r2[p] == r[p]);
            } else {
                assert(j != best);
                assert(ranks_ahead(scores, best, j));
            }
        }
        assert forall|p: int, q: int|
            #![trigger r2[p], r2[q]]
            0 <= p < q < r2.len() implies ranks_ahead(scores, r2[p], r2[q]) by {
            assert(r2[p] == r[p]);
            if q < r.len() {
                assert(r2[q] == r[q]);
            }
        }
        assert forall|p: int| 0 <= p < r2.len() implies 0 <= #[trigger] r2[p] < n by {
            if p < r.len() {
                assert(r2[p] == r[p]);
            }
        }
        assert(is_top_ranking(scores, r2, m));
    }
}

/// Law: every list of scores has a top-`k` ranking.
pub proof fn lemma_top_ranking_exists(scores: Seq<int>, k: nat)
    ensures
        is_top_ranking(scores, top_ranking(scores, k), k),
{
    let m = min_nat(k, scores.len());
    lemma_top_ranking_exists_upto(scores, m);
    let r = choose|r: Seq<int>| is_top_ranking(scores, r, m);
    assert(r.len() == min_nat(k, scores.len()));
    assert(is_top_ranking(scores, r, k));
}

/// Law: when all items score the same, the ranking keeps their original
/// order: it is the first `min(k, n)` positions.
pub proof fn lemma_equal_scores_keep_order(scores: Seq<int>, k: nat)
    requires
        forall|i: int, j: int|
            0 <= i < scores.len() && 0 <= j < scores.len() ==> scores[i] == scores[j],
    ensures
        top_ranking(scores, k) == Seq::new(min_nat(k, scores.len()), |p: int| p),
{
    let m = min_nat(k, scores.len());
    let r = Seq::new(m, |p: int| p);
    assert forall|p: int, j: int|
        #![trigger r[p], r.contains(j)]
        0 <= p < r.len() && 0 <= j < scores.len() && !r.contains(j) implies ranks_ahead(
        scores,
        r[p],
        j,
    ) by {
        if j < m {
            assert(r[j] == j);
        }
    }
    assert(is_top_ranking(scores, r, k));
    lemma_top_ranking_exists(scores, k);
    lemma_top_ranking_unique(scores, r, top_ranking(scores, k), k);
}

/// Positions `0..n`, in order.
fn positions(n: usize) -> (v: Vec<usize>)
    ensures
        ints(v@) == Seq::new(n as nat, |i: int| i),
        v@.len() == n,
        forall|t: int| 0 <= t < n ==> #[trigger] v@[t] == t,
{
    let mut v: Vec<usize> = Vec::new();
    for i in 0..n
        invariant
            ints(v@) == Seq::new(i as nat, |t: int| t),
    {
        let ghost old_v = v@;
        v.push(i);
        proof {
            assert(ints(v@) =~= ints(old_v).push(i as int));
            assert(ints(v@) =~= Seq::new((i + 1) as nat, |t: int| t));
        }
    }
    proof {
        assert forall|t: int| 0 <= t < n implies #[trigger] v@[t] == t by {
            assert(ints(v@)[t] == t);
        }
    }
    v
}

/// The positions of the `min(k, n)` best-scoring items, best first, ties in
/// their original order.
pub fn top_ranking_positions(scores: &Vec<usize>, k: usize) -> (r: Vec<usize>)
    ensures
        is_top_ranking(ints(scores@), ints(r@), k as nat),
        ints(r@) == top_ranking(ints(scores@), k as nat),
{
    let ghost s = ints(scores@);
    let n = scores.len();
    let limit = if k < n {
        k
    } else {
        n
    };
    let mut remaining = positions(n);
    let mut r: Vec<usize> = Vec::new();
    proof {
        assert forall|j: int| 0 <= j < n implies ints(remaining@).contains(j) by {
            assert(ints(remaining@)[j] == j);
        }
        assert(ints(remaining@).no_duplicates());
    }
    while r.len() < limit
        invariant
            n == scores@.len(),
            s == ints(scores@),
            limit == min_nat(k as nat, n as nat),
            r@.len() <= limit,
            r@.len() + remaining@.len() == n,
            forall|t: int| 0 <= t < remaining@.len() ==> #[trigger] remaining@[t] < n,
            ints(remaining@).no_duplicates(),
            forall|j: int| 0 <= j < n ==> ints(r@).contains(j) || ints(remaining@).contains(j),
            forall|p: int, q: int|
                #![trigger ints(r@)[p], ints(r@)[q]]
                0 <= p < q < r@.len() ==> ranks_ahead(s, ints(r@)[p], ints(r@)[q]),
            forall|p: int, t: int|
                #![trigger ints(r@)[p], ints(remaining@)[t]]
                0 <= p < r@.len() && 0 <= t < remaining@.len() ==> ranks_ahead(
                    s,
                    ints(r@)[p],
                    ints(remaining@)[t],
                ),
            forall|p: int| 0 <= p < r@.len() ==> #[trigger] r@[p] < n,
        decreases limit - r@.len(),
    {
        let ghost rem = ints(remaining@);
        let mut b: usize = 0;
        let mut t: usize = 1;
        while t < remaining.len()
            invariant
                n == scores@.len(),
                s == ints(scores@),
                rem == ints(remaining@),
                0 < remaining@.len(),
                forall|t: int| 0 <= t < remaining@.len() ==> #[trigger] remaining@[t] < n,
                rem.no_duplicates(),
                b < t <= remaining@.len(),
                forall|u: int|
                    0 <= u < t && u != b ==> ranks_ahead(s, rem[b as int], #[trigger] rem[u]),
            decreases remaining@.len() - t,
        {
            let x = remaining[t];
            let y = remaining[b];
            assert(rem[t as int] == x as int && rem[b as int] == y as int);
            if scores[x] > scores[y] || (scores[x] == scores[y] && x < y) {
                b = t;
            }
            t = t + 1;
        }
        let ghost old_r = ints(r@);
        let chosen = remaining.remove(b);
        r.push(chosen);
        proof {
            let bi = b as int;
            assert(chosen as int == rem[bi]);
            assert(ints(r@) =~= old_r.push(chosen as int));
            assert forall|u: int| 0 <= u < remaining@.len() implies #[trigger] ints(remaining@)[u]
                == rem[if u < bi {
                u
            } else {
                u + 1
            }] by {}
            assert(ints(remaining@).no_duplicates()) by {
                assert forall|i: int, j: int|
                    0 <= i < remaining@.len() && 0 <= j < remaining@.len() && i != j implies ints(
                    remaining@,
                )[i] != ints(remaining@)[j] by {
                    let ii = if i < bi {
                        i
                    } else {
                        i + 1
                    };
                    let jj = if j < bi {
                        j
                    } else {
                        j + 1
                    };
                    assert(ints(remaining@)[i] == rem[ii]);
                    assert(ints(remaining@)[j] == rem[jj]);
                }
            }
            assert forall|j: int| 0 <= j < n implies ints(r@).contains(j) || ints(
                remaining@,
            ).contains(j) by {
                if old_r.contains(j) {
                    let p = choose|p: int| 0 <= p < old_r.len() && old_r[p] == j;
                    assert(ints(r@)[p] == j);
                } else {
                    let u = choose|u: int| 0 <= u < rem.len() && rem[u] == j;
                    if u == bi {
                        assert(ints(r@)[old_r.len() as int] == j);
                    } else if u < bi {
                        assert(ints(remaining@)[u] == j);
                    } else {
                        assert(ints(remaining@)[u - 1] == j);
                    }
                }
            }
            assert forall|p: int, q: int|
                #![trigger ints(r@)[p], ints(r@)[q]]
                0 <= p < q < r@.len() implies ranks_ahead(s, ints(r@)[p], ints(r@)[q]) by {
                assert(ints(r@)[p] == old_r[p]);
                if q < old_r.len() {
                    assert(ints(r@)[q] == old_r[q]);
                } else {
                    assert(ints(r@)[q] == rem[bi]);
                }
            }
            assert forall|p: int, t: int|
                #![trigger ints(r@)[p], ints(remaining@)[t]]
                0 <= p < r@.len() && 0 <= t < remaining@.len() implies ranks_ahead(
                s,
                ints(r@)[p],
                ints(remaining@)[t],
            ) by {
                let tt = if t < bi {
                    t
                } else {
                    t + 1
                };
                assert(ints(remaining@)[t] == rem[tt]);
                if p < old_r.len() {
                    assert(ints(r@)[p] == old_r[p]);
                } else {
                    assert(tt != bi);
                    assert(ranks_ahead(s, rem[bi], rem[tt]));
                }
            }
            assert forall|p: int| 0 <= p < r@.len() implies #[trigger] r@[p] < n by {
                assert(ints(r@)[p] < n);
            }
        }
    }
    proof {
        let ri = ints(r@);
        assert forall|p: int, j: int|
            #![trigger ri[p], ri.contains(j)]
            0 <= p < ri.len() && 0 <= j < s.len() && !ri.contains(j) implies ranks_ahead(
            s,
            ri[p],
            j,
        ) by {
            let u = choose|u: int|
                0 <= u < remaining@.len() && ints(remaining@)[u] == j;
            assert(ranks_ahead(s, ri[p], ints(remaining@)[u]));
        }
        assert forall|p: int| 0 <= p < ri.len() implies 0 <= #[trigger] ri[p] < s.len() by {
            assert(r@[p] < n);
        }
        assert(is_top_ranking(s, ri, k as nat));
        lemma_top_ranking_exists(s, k as nat);
        lemma_top_ranking_unique(s, ri, top_ranking(s, k as nat), k as nat);
    }
    r
}

} // verus!
