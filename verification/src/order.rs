//! What a stable sort produces, and the insertion step that builds one.
use vstd::prelude::*;

verus! {

/// `s` is ascending under `le`.
pub open spec fn sorted_by<A>(s: Seq<A>, le: spec_fn(A, A) -> bool) -> bool {
    forall|i: int, j: int| 0 <= i < j < s.len() ==> #[trigger] le(s[i], s[j])
}

/// `le` is a total preorder: every two values compare, and it is transitive.
pub open spec fn total_preorder<A>(le: spec_fn(A, A) -> bool) -> bool {
    &&& forall|a: A, b: A| #[trigger] le(a, b) || le(b, a)
    &&& forall|a: A, b: A, c: A| #[trigger] le(a, b) && #[trigger] le(b, c) ==> le(a, c)
}

/// `out` is `inp` rearranged by the index map `perm` (`out[i] == inp[perm[i]]`),
/// ascending under `le`, with elements that compare equal kept in their
/// relative order of the input.
pub open spec fn stable_arrangement<A>(
    out: Seq<A>,
    inp: Seq<A>,
    perm: Seq<int>,
    le: spec_fn(A, A) -> bool,
) -> bool {
    &&& out.len() == inp.len()
    &&& perm.len() == inp.len()
    &&& forall|i: int| 0 <= i < out.len() ==> 0 <= #[trigger] perm[i] < inp.len() && out[i] == inp[perm[i]]
    &&& forall|i: int, j: int| 0 <= i < j < out.len() ==> #[trigger] perm[i] != #[trigger] perm[j]
    &&& sorted_by(out, le)
    &&& forall|i: int, j: int|
        0 <= i < j < out.len() && #[trigger] le(out[j], out[i]) ==> perm[i] < perm[j]
}

/// `out` is what a stable sort of `inp` under `le` yields.
pub open spec fn is_stable_sort_of<A>(out: Seq<A>, inp: Seq<A>, le: spec_fn(A, A) -> bool) -> bool {
    exists|perm: Seq<int>| stable_arrangement(out, inp, perm, le)
}

/// Inserting the next input element after every element that is not
/// greater than it extends a stable arrangement of a prefix of the input
/// to the next prefix.
pub proof fn lemma_stable_insert<A>(
    out: Seq<A>,
    inp: Seq<A>,
    perm: Seq<int>,
    le: spec_fn(A, A) -> bool,
    k: int,
    p: int,
)
    requires
        total_preorder(le),
        0 <= k < inp.len(),
        stable_arrangement(out, inp.take(k), perm, le),
        0 <= p <= out.len(),
        forall|i: int| 0 <= i < p ==> #[trigger] le(out[i], inp[k]),
        p < out.len() ==> !le(out[p], inp[k]),
    ensures
        stable_arrangement(out.insert(p, inp[k]), inp.take(k + 1), perm.insert(p, k), le),
{
    let x = inp[k];
    let o2 = out.insert(p, x);
    let p2 = perm.insert(p, k);
    assert forall|i: int| p <= i < out.len() implies !le(#[trigger] out[i], x) by {
        if i > p && le(out[i], x) {
            assert(le(out[p], out[i]));
            assert(le(out[p], x));
        }
    }
    assert forall|i: int| 0 <= i < o2.len() implies 0 <= #[trigger] p2[i] < inp.take(k + 1).len()
        && o2[i] == inp.take(k + 1)[p2[i]] by {
        if i < p {
            assert(o2[i] == out[i] && p2[i] == perm[i]);
        } else if i > p {
            assert(o2[i] == out[i - 1] && p2[i] == perm[i - 1]);
        }
    }
    assert forall|i: int, j: int| 0 <= i < j < o2.len() implies #[trigger] p2[i] != #[trigger] p2[j] by {
        if i < p && j > p {
            assert(p2[i] == perm[i] && p2[j] == perm[j - 1]);
        } else if i > p {
            assert(p2[i] == perm[i - 1] && p2[j] == perm[j - 1]);
        } else if j < p {
            assert(p2[i] == perm[i] && p2[j] == perm[j]);
        } else if i == p {
            assert(p2[j] == perm[j - 1]);
        } else {
            assert(p2[i] == perm[i]);
        }
    }
    assert forall|i: int, j: int| 0 <= i < j < o2.len() implies #[trigger] le(o2[i], o2[j]) by {
        if j < p {
            assert(o2[i] == out[i] && o2[j] == out[j]);
        } else if j == p {
            assert(o2[i] == out[i]);
        } else if i == p {
            assert(o2[j] == out[j - 1]);
            assert(!le(out[j - 1], x));
        } else if i < p {
            assert(o2[i] == out[i] && o2[j] == out[j - 1]);
        } else {
            assert(o2[i] == out[i - 1] && o2[j] == out[j - 1]);
        }
    }
    assert forall|i: int, j: int|
        0 <= i < j < o2.len() && #[trigger] le(o2[j], o2[i]) implies p2[i] < p2[j] by {
        if j < p {
            assert(o2[i] == out[i] && o2[j] == out[j]);
            assert(p2[i] == perm[i] && p2[j] == perm[j]);
        } else if j == p {
            assert(p2[i] == perm[i]);
        } else if i == p {
            assert(o2[j] == out[j - 1]);
            assert(!le(out[j - 1], x));
        } else if i < p {
            assert(o2[i] == out[i] && o2[j] == out[j - 1]);
            assert(p2[i] == perm[i] && p2[j] == perm[j - 1]);
        } else {
            assert(o2[i] == out[i - 1] && o2[j] == out[j - 1]);
            assert(p2[i] == perm[i - 1] && p2[j] == perm[j - 1]);
        }
    }
}

/// Input index `a` goes before input index `b` in a stable sort: its
/// element is smaller, or the two compare equal and `a` comes first.
pub open spec fn goes_before<A>(inp: Seq<A>, le: spec_fn(A, A) -> bool, a: int, b: int) -> bool {
    le(inp[a], inp[b]) && (le(inp[b], inp[a]) ==> a < b)
}

proof fn lemma_arrangement_goes_before<A>(
    out: Seq<A>,
    inp: Seq<A>,
    perm: Seq<int>,
    le: spec_fn(A, A) -> bool,
    i: int,
    j: int,
)
    requires
        stable_arrangement(out, inp, perm, le),
        0 <= i < j < out.len(),
    ensures
        goes_before(inp, le, perm[i], perm[j]),
{
    assert(le(out[i], out[j]));
    if le(out[j], out[i]) {
        assert(perm[i] < perm[j]);
    }
}

/// The index map of an arrangement reaches every input index.
proof fn lemma_arrangement_onto<A>(out: Seq<A>, inp: Seq<A>, perm: Seq<int>, le: spec_fn(A, A) -> bool, a: int)
    requires
        stable_arrangement(out, inp, perm, le),
        0 <= a < inp.len(),
    ensures
        exists|i: int| 0 <= i < perm.len() && perm[i] == a,
{
    let n = inp.len() as int;
    assert(perm.no_duplicates()) by {
        assert forall|i: int, j: int| 0 <= i < perm.len() && 0 <= j < perm.len() && i != j implies perm[i]
            != perm[j] by {
            if i < j {
                assert(perm[i] != perm[j]);
            } else {
                assert(perm[j] != perm[i]);
            }
        }
    }
    perm.unique_seq_to_set();
    vstd::set_lib::lemma_int_range(0, n);
    let range = vstd::set_lib::set_int_range(0, n);
    assert(perm.to_set().subset_of(range)) by {
        assert forall|x: int| perm.to_set().contains(x) implies range.contains(x) by {
            let i = choose|i: int| 0 <= i < perm.len() && perm[i] == x;
            assert(0 <= perm[i] < n);
        }
    }
    vstd::seq_lib::seq_to_set_is_finite(perm);
    vstd::set_lib::lemma_subset_equality(perm.to_set(), range);
    assert(range.contains(a));
    assert(perm.to_set().contains(a));
}

proof fn lemma_arrangements_agree_below<A>(
    o1: Seq<A>,
    o2: Seq<A>,
    inp: Seq<A>,
    p1: Seq<int>,
    p2: Seq<int>,
    le: spec_fn(A, A) -> bool,
    i: int,
)
    requires
        stable_arrangement(o1, inp, p1, le),
        stable_arrangement(o2, inp, p2, le),
        0 <= i <= inp.len(),
    ensures
        forall|k: int| 0 <= k < i ==> p1[k] == p2[k],
    decreases i,
{
    if i > 0 {
        let m = i - 1;
        lemma_arrangements_agree_below(o1, o2, inp, p1, p2, le, m);
        let a = p1[m];
        let b = p2[m];
        if a != b {
            lemma_arrangement_onto(o2, inp, p2, le, a);
            let j2 = choose|j: int| 0 <= j < p2.len() && p2[j] == a;
            lemma_arrangement_onto(o1, inp, p1, le, b);
            let j1 = choose|j: int| 0 <= j < p1.len() && p1[j] == b;
            if j2 < m {
                assert(p1[j2] == p2[j2]);
                assert(p1[j2] != p1[m]);
            }
            if j1 < m {
                assert(p1[j1] == p2[j1]);
                assert(p2[j1] != p2[m]);
            }
            lemma_arrangement_goes_before(o2, inp, p2, le, m, j2);
            lemma_arrangement_goes_before(o1, inp, p1, le, m, j1);
            assert(goes_before(inp, le, b, a));
            assert(goes_before(inp, le, a, b));
        }
    }
}

/// A stable sort is unique: two stable sorts of the same input under the
/// same relation are equal.
pub proof fn lemma_stable_sort_unique<A>(o1: Seq<A>, o2: Seq<A>, inp: Seq<A>, le: spec_fn(A, A) -> bool)
    requires
        is_stable_sort_of(o1, inp, le),
        is_stable_sort_of(o2, inp, le),
    ensures
        o1 == o2,
{
    let p1 = choose|p: Seq<int>| stable_arrangement(o1, inp, p, le);
    let p2 = choose|p: Seq<int>| stable_arrangement(o2, inp, p, le);
    lemma_arrangements_agree_below(o1, o2, inp, p1, p2, le, inp.len() as int);
    assert forall|k: int| 0 <= k < o1.len() implies o1[k] == o2[k] by {
        assert(p1[k] == p2[k]);
    }
    assert(o1 =~= o2);
}

} // verus!
