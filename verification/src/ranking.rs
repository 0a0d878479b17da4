//! Ordering records by rank, keeping one record per rank.
use vstd::prelude::*;

verus! {

/// A record with a rank.
pub trait Ranked {
    spec fn rank_spec(&self) -> usize;

    fn rank(&self) -> (r: usize)
        ensures
            r == self.rank_spec(),
    ;
}

/// The ranks of `s` increase strictly from left to right.
pub open spec fn ranks_increase<T: Ranked>(s: Seq<T>) -> bool {
    forall|i: int, j: int| 0 <= i < j < s.len() ==> s[i].rank_spec() < s[j].rank_spec()
}

/// No record before position `i` of `s` has the rank of `s[i]`.
pub open spec fn first_of_its_rank<T: Ranked>(s: Seq<T>, i: int) -> bool {
    forall|k: int| 0 <= k < i ==> s[k].rank_spec() != s[i].rank_spec()
}

/// Some record of `s` has rank `r`.
pub open spec fn has_rank<T: Ranked>(s: Seq<T>, r: usize) -> bool {
    exists|j: int| 0 <= j < s.len() && s[j].rank_spec() == r
}

/// `x` is the first record of its rank in `items`.
pub open spec fn is_first_record<T: Ranked>(items: Seq<T>, x: T) -> bool {
    exists|i: int| 0 <= i < items.len() && items[i] == x && first_of_its_rank(items, i)
}

/// What stable sorting by rank and then dropping all but the first record of
/// each rank gives: `out` holds, by increasing rank, for every rank of
/// `items`, the first record of `items` with that rank.
pub open spec fn sorted_first_by_rank<T: Ranked>(items: Seq<T>, out: Seq<T>) -> bool {
    &&& ranks_increase(out)
    &&& forall|j: int| 0 <= j < out.len() ==> is_first_record(items, #[trigger] out[j])
    &&& forall|i: int| 0 <= i < items.len() ==> has_rank(out, #[trigger] items[i].rank_spec())
}

/// Sorts `items` by rank, keeping for each rank only the record that came
/// first (`sort_by_key` then `dedup_by_key` on the rank).
pub fn sort_dedup_by_rank<T: Ranked>(items: Vec<T>) -> (out: Vec<T>)
    ensures
        sorted_first_by_rank(items@, out@),
        out.len() <= items.len(),
{
    let ghost src = items@;
    let mut rest = items;
    let n = rest.len();
    let mut out: Vec<T> = Vec::new();
    let ghost mut origin: Seq<int> = seq![];
    let mut m: usize = 0;
    while rest.len() > 0
        invariant
            m + rest.len() == n,
            src.len() == n,
            rest@ == src.skip(m as int),
            origin.len() == out.len(),
            out.len() <= m,
            ranks_increase(out@),
            forall|j: int|
                0 <= j < out.len() ==> 0 <= #[trigger] origin[j] < m && out@[j] == src[origin[j]]
                    && first_of_its_rank(src, origin[j]),
            forall|i: int| 0 <= i < m ==> has_rank(out@, #[trigger] src[i].rank_spec()),
        decreases rest.len(),
    {
        let x = rest.remove(0);
        proof {
            assert(src.skip(m as int)[0] == src[m as int]);
            assert(rest@ =~= src.skip(m + 1));
        }
        let r = x.rank();
        let mut p: usize = 0;
        while p < out.len() && out[p].rank() < r
            invariant
                p <= out.len(),
                forall|j: int| 0 <= j < p ==> (#[trigger] out@[j]).rank_spec() < r,
            decreases out.len() - p,
        {
            p = p + 1;
        }
        if p < out.len() && out[p].rank() == r {
            proof {
                assert(out@[p as int].rank_spec() == src[m as int].rank_spec());
                assert forall|i: int| 0 <= i < m + 1 implies has_rank(
                    out@,
                    #[trigger] src[i].rank_spec(),
                ) by {
                    if i == m {
                        assert(out@[p as int].rank_spec() == src[i].rank_spec());
                    }
                }
            }
        } else {
            let ghost before = out@;
            proof {
                assert forall|j: int| 0 <= j < before.len() implies (#[trigger] before[j]).rank_spec()
                    != r by {
                    if j >= p {
                        assert(before[p as int].rank_spec() > r);
                        if j > p {
                            assert(before[p as int].rank_spec() < before[j].rank_spec());
                        }
                    }
                }
                assert forall|k: int| 0 <= k < m implies src[k].rank_spec() != src[m as int].rank_spec() by {
                    assert(has_rank(before, src[k].rank_spec()));
                    let j = choose|j: int| 0 <= j < before.len() && before[j].rank_spec() == src[k].rank_spec();
                    assert(before[j].rank_spec() != r);
                }
            }
            out.insert(p, x);
            proof {
                let old_origin = origin;
                origin = origin.insert(p as int, m as int);
                assert(out@ =~= before.insert(p as int, src[m as int]));
                assert forall|i: int, j: int| 0 <= i < j < out@.len() implies out@[i].rank_spec()
                    < out@[j].rank_spec() by {
                    if j < p {
                        assert(out@[i] == before[i] && out@[j] == before[j]);
                    } else if j == p {
                        assert(out@[i] == before[i]);
                    } else if i < p {
                        assert(out@[i] == before[i] && out@[j] == before[j - 1]);
                    } else if i == p {
                        assert(out@[j] == before[j - 1]);
                    } else {
                        assert(out@[i] == before[i - 1] && out@[j] == before[j - 1]);
                    }
                }
                assert forall|j: int| 0 <= j < out.len() implies 0 <= #[trigger] origin[j] < m + 1
                    && out@[j] == src[origin[j]] && first_of_its_rank(src, origin[j]) by {
                    if j < p {
                        assert(origin[j] == old_origin[j]);
                    } else if j > p {
                        assert(origin[j] == old_origin[j - 1]);
                        assert(out@[j] == before[j - 1]);
                    }
                }
                assert forall|i: int| 0 <= i < m + 1 implies has_rank(
                    out@,
                    #[trigger] src[i].rank_spec(),
                ) by {
                    if i == m {
                        assert(out@[p as int].rank_spec() == src[i].rank_spec());
                    } else {
                        assert(has_rank(before, src[i].rank_spec()));
                        let j = choose|j: int| 0 <= j < before.len() && before[j].rank_spec() == src[i].rank_spec();
                        if j < p {
                            assert(out@[j] == before[j]);
                        } else {
                            assert(out@[j + 1] == before[j]);
                        }
                    }
                }
            }
        }
        m = m + 1;
    }
    proof {
        assert forall|j: int| 0 <= j < out.len() implies is_first_record(src, #[trigger] out@[j]) by {
            assert(0 <= origin[j] < m);
            assert(out@[j] == src[origin[j]]);
        }
        assert(m == src.len());
        assert forall|i: int| 0 <= i < src.len() implies has_rank(out@, #[trigger] src[i].rank_spec()) by {}
        assert(ranks_increase(out@));
        assert(sorted_first_by_rank(src, out@));
    }
    out
}

proof fn lemma_rank_lower<T: Ranked>(out: Seq<T>, i: int)
    requires
        ranks_increase(out),
        0 <= i < out.len(),
        forall|j: int| 0 <= j < out.len() ==> 1 <= #[trigger] out[j].rank_spec(),
    ensures
        out[i].rank_spec() >= i + 1,
    decreases i,
{
    if i > 0 {
        lemma_rank_lower(out, i - 1);
    }
}

proof fn lemma_rank_exact<T: Ranked>(out: Seq<T>, n: nat, i: int)
    requires
        ranks_increase(out),
        0 <= i < out.len(),
        forall|j: int| 0 <= j < out.len() ==> 1 <= #[trigger] out[j].rank_spec() <= n,
        forall|r: usize| 1 <= r <= n ==> has_rank(out, r),
    ensures
        out[i].rank_spec() == i + 1,
    decreases i,
{
    lemma_rank_lower(out, i);
    let r = (i + 1) as usize;
    assert(1 <= r <= n);
    assert(has_rank(out, r));
    let j = choose|j: int| 0 <= j < out.len() && out[j].rank_spec() == r;
    lemma_rank_lower(out, j);
    if j < i {
        lemma_rank_exact(out, n, j);
    }
}

/// Where the ranks of `items` are exactly 1 to `n` (each at least once),
/// sorting and keeping one record per rank gives `n` records ranked 1 to `n`.
pub proof fn lemma_ranks_one_to_n<T: Ranked>(items: Seq<T>, out: Seq<T>, n: nat)
    requires
        n <= usize::MAX,
        sorted_first_by_rank(items, out),
        forall|i: int| 0 <= i < items.len() ==> 1 <= #[trigger] items[i].rank_spec() <= n,
        forall|r: usize| 1 <= r <= n ==> has_rank(items, r),
    ensures
        out.len() == n,
        forall|i: int| 0 <= i < n ==> #[trigger] out[i].rank_spec() == i + 1,
{
    assert forall|j: int| 0 <= j < out.len() implies 1 <= #[trigger] out[j].rank_spec() <= n by {
        assert(is_first_record(items, out[j]));
        let t = choose|t: int| 0 <= t < items.len() && items[t] == out[j] && first_of_its_rank(items, t);
        assert(items[t].rank_spec() == out[j].rank_spec());
    }
    assert forall|r: usize| 1 <= r <= n implies has_rank(out, r) by {
        assert(has_rank(items, r));
        let t = choose|t: int| 0 <= t < items.len() && items[t].rank_spec() == r;
        assert(has_rank(out, items[t].rank_spec()));
    }
    assert forall|i: int| 0 <= i < out.len() implies #[trigger] out[i].rank_spec() == i + 1 by {
        lemma_rank_exact(out, n, i);
    }
    if out.len() > 0 {
        assert(out[out.len() - 1].rank_spec() == out.len());
    }
    if n > 0 {
        assert(has_rank(out, n as usize));
        let j = choose|j: int| 0 <= j < out.len() && out[j].rank_spec() == n as usize;
        assert(out[j].rank_spec() == j + 1);
    }
}

} // verus!
