//! Stable sorting by a key order, as `slice::sort_by` does it.

use vstd::prelude::*;

verus! {

/// A strict weak order on values: the order by which a list is sorted.
pub trait SortKey: Sized {
    /// Whether `self` sorts strictly before `other`.
    spec fn sorts_before(self, other: Self) -> bool;

    fn before(&self, other: &Self) -> (b: bool)
        ensures
            b == self.sorts_before(*other),
    ;

    /// `sorts_before` is irreflexive and transitive, and values that are
    /// incomparable to a common value are incomparable to each other.
    proof fn lemma_strict_weak_order(a: Self, b: Self, c: Self)
        ensures
            !a.sorts_before(a),
            a.sorts_before(b) && b.sorts_before(c) ==> a.sorts_before(c),
            !a.sorts_before(b) && !b.sorts_before(a) && !b.sorts_before(c) && !c.sorts_before(b)
                ==> !a.sorts_before(c) && !c.sorts_before(a),
    ;
}

/// Neither value sorts before the other.
pub open spec fn equivalent<T: SortKey>(a: T, b: T) -> bool {
    !a.sorts_before(b) && !b.sorts_before(a)
}

/// `perm` maps each output position to a distinct input position holding the
/// same value, the output is sorted and equivalent values keep their input order.
pub open spec fn sorted_by_perm<T: SortKey>(input: Seq<T>, output: Seq<T>, perm: Seq<int>) -> bool {
    &&& perm.len() == output.len() == input.len()
    &&& forall|i: int| 0 <= i < perm.len() ==> 0 <= #[trigger] perm[i] < input.len()
    &&& forall|i: int, j: int| 0 <= i < j < perm.len() ==> #[trigger] perm[i] != #[trigger] perm[j]
    &&& forall|i: int| 0 <= i < perm.len() ==> #[trigger] output[i] == input[perm[i]]
    &&& forall|i: int, j: int|
        0 <= i < j < output.len() ==> !(#[trigger] output[j]).sorts_before(#[trigger] output[i])
            && (equivalent(output[i], output[j]) ==> perm[i] < perm[j])
}

/// `output` is `input` sorted stably: the unique permutation of `input` in
/// which no element sorts before an earlier one and equivalent elements keep
/// their relative input order.
pub open spec fn stably_sorted<T: SortKey>(input: Seq<T>, output: Seq<T>) -> bool {
    exists|perm: Seq<int>| #[trigger] sorted_by_perm(input, output, perm)
}

proof fn lemma_before_equivalent<T: SortKey>(a: T, b: T, c: T)
    requires
        a.sorts_before(b),
        equivalent(a, c),
    ensures
        c.sorts_before(b),
{
    T::lemma_strict_weak_order(a, b, c);
    T::lemma_strict_weak_order(c, b, a);
    T::lemma_strict_weak_order(a, c, b);
    T::lemma_strict_weak_order(b, a, c);
    T::lemma_strict_weak_order(c, a, b);
    T::lemma_strict_weak_order(a, b, a);
    if !c.sorts_before(b) {
        if b.sorts_before(c) {
            T::lemma_strict_weak_order(a, b, c);
        } else {
            T::lemma_strict_weak_order(a, c, b);
        }
    }
}

proof fn lemma_asymmetric<T: SortKey>(a: T, b: T)
    ensures
        !(a.sorts_before(b) && b.sorts_before(a)),
{
    T::lemma_strict_weak_order(a, b, a);
}

/// Sorts `v` stably by `SortKey::before` (insertion sort).
pub fn stable_sort<T: SortKey>(v: Vec<T>) -> (r: Vec<T>)
    ensures
        stably_sorted(v@, r@),
{
    let ghost input = v@;
    let mut src = v;
    let mut out: Vec<T> = Vec::new();
    let ghost mut perm: Seq<int> = Seq::empty();
    let mut k: usize = 0;
    while src.len() > 0
        invariant
            k + src@.len() == input.len(),
            src@ == input.subrange(k as int, input.len() as int),
            out@.len() == k,
            perm.len() == k,
            forall|i: int| 0 <= i < k ==> 0 <= #[trigger] perm[i] < k,
            forall|i: int, j: int| 0 <= i < j < k ==> #[trigger] perm[i] != #[trigger] perm[j],
            forall|i: int| 0 <= i < k ==> #[trigger] out@[i] == input[perm[i]],
            forall|i: int, j: int|
                0 <= i < j < k ==> !(#[trigger] out@[j]).sorts_before(#[trigger] out@[i])
                    && (equivalent(out@[i], out@[j]) ==> perm[i] < perm[j]),
        decreases src@.len(),
    {
        let x = src.remove(0);
        assert(x == input[k as int]);
        let mut p: usize = 0;
        while p < out.len() && !x.before(&out[p])
            invariant
                p <= out@.len(),
                forall|q: int| 0 <= q < p ==> !x.sorts_before(#[trigger] out@[q]),
            decreases out@.len() - p,
        {
            p = p + 1;
        }
        let ghost old_out = out@;
        let ghost old_perm = perm;
        out.insert(p, x);
        proof {
            perm = old_perm.insert(p as int, k as int);
            assert(out@ == old_out.insert(p as int, x));
            assert forall|i: int| 0 <= i < k + 1 implies 0 <= #[trigger] perm[i] < k + 1 by {
                if i < p {
                    assert(perm[i] == old_perm[i]);
                } else if i > p {
                    assert(perm[i] == old_perm[i - 1]);
                }
            }
            assert forall|i: int, j: int| 0 <= i < j < k + 1 implies #[trigger] perm[i] != #[trigger] perm[j] by {
                if i == p as int {
                    assert(perm[j] == old_perm[j - 1]);
                } else if j == p as int {
                    assert(perm[i] == old_perm[i]);
                } else {
                    let oi = if i < p { i } else { i - 1 };
                    let oj = if j < p { j } else { j - 1 };
                    assert(perm[i] == old_perm[oi]);
                    assert(perm[j] == old_perm[oj]);
                }
            }
            assert forall|i: int| 0 <= i < k + 1 implies #[trigger] out@[i] == input[perm[i]] by {
                if i < p {
                    assert(out@[i] == old_out[i]);
                    assert(perm[i] == old_perm[i]);
                } else if i > p {
                    assert(out@[i] == old_out[i - 1]);
                    assert(perm[i] == old_perm[i - 1]);
                }
            }
            assert forall|i: int, j: int| 0 <= i < j < k + 1 implies !(#[trigger] out@[j]).sorts_before(
                #[trigger] out@[i],
            ) && (equivalent(out@[i], out@[j]) ==> perm[i] < perm[j]) by {
                if j < p {
                    assert(out@[i] == old_out[i] && out@[j] == old_out[j]);
                    assert(perm[i] == old_perm[i] && perm[j] == old_perm[j]);
                } else if i > p {
                    assert(out@[i] == old_out[i - 1] && out@[j] == old_out[j - 1]);
                    assert(perm[i] == old_perm[i - 1] && perm[j] == old_perm[j - 1]);
                } else if i < p && j > p {
                    assert(out@[i] == old_out[i] && out@[j] == old_out[j - 1]);
                    assert(perm[i] == old_perm[i] && perm[j] == old_perm[j - 1]);
                } else if j == p as int {
                    assert(out@[i] == old_out[i]);
                    assert(out@[j] == x);
                    assert(!x.sorts_before(old_out[i]));
                    assert(perm[i] == old_perm[i]);
                    assert(perm[j] == k);
                } else {
                    assert(i == p as int);
                    assert(out@[i] == x);
                    assert(out@[j] == old_out[j - 1]);
                    assert(p < old_out.len());
                    assert(x.sorts_before(old_out[p as int]));
                    let y = old_out[j - 1];
                    let z = old_out[p as int];
                    if j - 1 > p {
                        assert(!y.sorts_before(z));
                    }
                    if y.sorts_before(x) {
                        T::lemma_strict_weak_order(y, x, z);
                        lemma_asymmetric(x, z);
                    }
                    if equivalent(x, y) {
                        lemma_before_equivalent(x, z, y);
                        T::lemma_strict_weak_order(y, y, y);
                    }
                }
            }
        }
        k = out.len();
        assert(src@ =~= input.subrange(k as int, input.len() as int));
    }
    assert(sorted_by_perm(input, out@, perm));
    out
}

} // verus!
