//! Exact selection of the `k` smallest entries of a list of ordering keys.

use vstd::prelude::*;
use vstd::set_lib::{lemma_int_range, lemma_len_subset, set_int_range};

verus! {

/// The smaller of `k` and `n`.
pub open spec fn min_nat(k: nat, n: nat) -> nat {
    if k < n {
        k
    } else {
        n
    }
}

/// Position `p` is one of those listed in `r`.
pub open spec fn picks(r: Seq<usize>, p: int) -> bool {
    exists|j: int| 0 <= j < r.len() && r[j] as int == p
}

/// `r` lists positions into `keys` that hold `k` smallest keys (all of them
/// when there are fewer than `k`), each position once, in non-decreasing
/// order of key, and no position left out holds a smaller key than one taken.
/// Among equal keys the earlier position comes first, and is the one taken.
pub open spec fn is_k_smallest(keys: Seq<u32>, k: nat, r: Seq<usize>) -> bool {
    &&& r.len() == min_nat(k, keys.len())
    &&& forall|i: int| 0 <= i < r.len() ==> #[trigger] r[i] < keys.len()
    &&& forall|i: int, j: int| 0 <= i < j < r.len() ==> r[i] != r[j]
    &&& forall|i: int, j: int|
        0 <= i < j < r.len() ==> keys[#[trigger] r[i] as int] <= keys[#[trigger] r[j] as int]
    &&& forall|i: int, p: int|
        0 <= i < r.len() && 0 <= p < keys.len() && !picks(r, p) ==> keys[#[trigger] r[i] as int]
            <= #[trigger] keys[p]
    &&& forall|i: int, j: int|
        0 <= i < j < r.len() && keys[#[trigger] r[i] as int] == keys[#[trigger] r[j] as int] ==> r[i] < r[j]
    &&& forall|i: int, p: int|
        0 <= i < r.len() && 0 <= p < keys.len() && !picks(r, p) && #[trigger] keys[p] == keys[#[trigger] r[i] as int]
            ==> r[i] < p
}

/// A sequence that holds every position below `n` has at least `n` elements.
proof fn lemma_covering_len(s: Seq<usize>, n: nat)
    requires
        forall|p: int| 0 <= p < n ==> #[trigger] picks(s, p),
    ensures
        s.len() >= n,
{
    let t = s.map_values(|x: usize| x as int);
    let range = set_int_range(0, n as int);
    lemma_int_range(0, n as int);
    assert forall|p: int| range.contains(p) implies t.to_set().contains(p) by {
        assert(picks(s, p));
        let i = choose|i: int| 0 <= i < s.len() && s[i] as int == p;
        assert(t[i] == p);
        assert(t.contains(p));
    }
    t.lemma_cardinality_of_set();
    vstd::seq_lib::seq_to_set_is_finite(t);
    lemma_len_subset(range, t.to_set());
}

/// Positions of the `k` smallest keys, smallest first; among equal keys the
/// earlier position comes first.
pub fn select_smallest(keys: &Vec<u32>, k: usize) -> (r: Vec<usize>)
    ensures
        is_k_smallest(keys@, k as nat, r@),
{
    let n = keys.len();
    let mut taken: Vec<bool> = Vec::new();
    let mut t: usize = 0;
    while t < n
        invariant
            t <= n,
            taken.len() == t,
            forall|p: int| 0 <= p < t ==> !taken[p],
        decreases n - t,
    {
        taken.push(false);
        t += 1;
    }
    let mut out: Vec<usize> = Vec::new();
    while out.len() < k && out.len() < n
        invariant
            n == keys.len(),
            taken.len() == n,
            out.len() <= k,
            out.len() <= n,
            forall|p: int| 0 <= p < n ==> (#[trigger] taken[p] <==> picks(out@, p)),
            forall|i: int| 0 <= i < out.len() ==> #[trigger] out[i] < n,
            forall|i: int, j: int| 0 <= i < j < out.len() ==> out[i] != out[j],
            forall|i: int, j: int|
                0 <= i < j < out.len() ==> keys[#[trigger] out[i] as int] <= keys[#[trigger] out[j] as int],
            forall|i: int, p: int|
                0 <= i < out.len() && 0 <= p < n && !taken[p] ==> keys[#[trigger] out[i] as int]
                    <= #[trigger] keys[p],
            forall|i: int, j: int|
                0 <= i < j < out.len() && keys[#[trigger] out[i] as int] == keys[#[trigger] out[j] as int]
                    ==> out[i] < out[j],
            forall|i: int, p: int|
                0 <= i < out.len() && 0 <= p < n && !taken[p] && #[trigger] keys[p] == keys[#[trigger] out[i] as int]
                    ==> out[i] < p,
        decreases n - out.len(),
    {
        let mut best: usize = n;
        let mut j: usize = 0;
        while j < n
            invariant
                n == keys.len(),
                taken.len() == n,
                j <= n,
                best == n || (best < j && !taken[best as int]),
                best == n ==> forall|p: int| 0 <= p < j ==> #[trigger] taken[p],
                best < n ==> forall|p: int|
                    0 <= p < j && !taken[p] ==> keys[best as int] < #[trigger] keys[p] || (keys[best as int]
                        == keys[p] && best <= p),
            decreases n - j,
        {
            if !taken[j] && (best == n || keys[j] < keys[best]) {
                best = j;
            }
            j += 1;
        }
        if best == n {
            proof {
                assert forall|p: int| 0 <= p < n implies #[trigger] picks(out@, p) by {
                    assert(taken[p]);
                }
                lemma_covering_len(out@, n as nat);
            }
        }
        proof {
            assert(!picks(out@, best as int));
        }
        let ghost old_out = out@;
        let ghost old_taken = taken@;
        taken.set(best, true);
        out.push(best);
        proof {
            assert forall|p: int| 0 <= p < n implies (#[trigger] taken[p] <==> picks(out@, p)) by {
                if p == best as int {
                    assert(out@[old_out.len() as int] == best);
                } else {
                    assert(taken[p] == old_taken[p]);
                    if old_out.contains(p as usize) {
                        let i = choose|i: int| 0 <= i < old_out.len() && old_out[i] == p as usize;
                        assert(out@[i] == p as usize);
                    }
                    if out@.contains(p as usize) {
                        let i = choose|i: int| 0 <= i < out@.len() && out@[i] == p as usize;
                        assert(i < old_out.len());
                        assert(old_out[i] == p as usize);
                    }
                }
            }
            assert forall|i: int, p: int|
                0 <= i < out.len() && 0 <= p < n && !taken[p] && #[trigger] keys[p] == keys[#[trigger] out[i] as int]
                implies out[i] < p by {
                assert(old_taken[p]== taken[p] || p == best);
            }
            assert forall|i: int, j: int| 0 <= i < j < out.len() implies out[i] != out[j] by {
                if j == old_out.len() {
                    assert(old_out[i] == out[i]);
                    assert(picks(old_out, out[i] as int));
                }
            }
        }
    }
    proof {
        assert forall|i: int, p: int|
            0 <= i < out.len() && 0 <= p < n && !picks(out@, p) implies keys[#[trigger] out[i] as int]
                <= #[trigger] keys[p] by {
            assert(!taken[p]);
        }
        assert forall|i: int, p: int|
            0 <= i < out.len() && 0 <= p < n && !picks(out@, p) && #[trigger] keys[p] == keys[#[trigger] out[i] as int]
            implies out[i] < p by {
            assert(!taken[p]);
        }
    }
    out
}

/// With `k` at least one and at least one key, the first position selected
/// holds a key no larger than any other.
pub proof fn nearest_comes_first(keys: Seq<u32>, k: nat, r: Seq<usize>)
    requires
        is_k_smallest(keys, k, r),
        k >= 1,
        keys.len() >= 1,
    ensures
        r.len() >= 1,
        forall|p: int| 0 <= p < keys.len() ==> keys[r[0] as int] <= #[trigger] keys[p],
{
    assert forall|p: int| 0 <= p < keys.len() implies keys[r[0] as int] <= #[trigger] keys[p] by {
        if picks(r, p) {
            let i = choose|i: int| 0 <= i < r.len() && r[i] as int == p;
            if i > 0 {
                assert(keys[r[0] as int] <= keys[r[i] as int]);
            }
        }
    }
}

} // verus!
