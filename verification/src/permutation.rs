//! Facts about permutations of `0..n` and about moving the contents of a
//! sequence along one.

use crate::model::{corner_perm, edge_perm, is_permutation, permuted};
use crate::cube::BaseMoveToken;
use vstd::prelude::*;

verus! {

/// A permutation reaches every number below its length.
pub proof fn lemma_permutation_onto(pi: Seq<int>, j: int)
    requires
        is_permutation(pi),
        0 <= j < pi.len(),
    ensures
        0 <= pi.index_of(j) < pi.len(),
        pi[pi.index_of(j)] == j,
{
    let n = pi.len() as int;
    let range = Set::<int>::new(|v: int| 0 <= v < n);
    vstd::set_lib::lemma_int_range(0, n);
    assert(range =~= vstd::set_lib::set_int_range(0, n));
    assert(pi.no_duplicates());
    pi.unique_seq_to_set();
    assert(pi.to_set().subset_of(range)) by {
        assert forall|v: int| pi.to_set().contains(v) implies range.contains(v) by {
            let i = choose|i: int| 0 <= i < pi.len() && pi[i] == v;
            assert(0 <= pi[i] < n);
        }
    }
    vstd::set_lib::lemma_subset_equality(pi.to_set(), range);
    assert(range.contains(j));
    assert(pi.to_set().contains(j));
    let i = choose|i: int| 0 <= i < pi.len() && pi[i] == j;
    assert(0 <= i < pi.len() && pi[i] == j);
}

/// A sequence that holds the content of every slot `i` of `s` at slot
/// `pi[i]` is `s` moved along `pi`.
pub proof fn lemma_permuted_unique<T>(s: Seq<T>, pi: Seq<int>, r: Seq<T>)
    requires
        is_permutation(pi),
        s.len() == pi.len(),
        r.len() == pi.len(),
        forall|i: int| 0 <= i < pi.len() ==> r[#[trigger] pi[i]] == s[i],
    ensures
        r == permuted(s, pi),
{
    assert forall|j: int| 0 <= j < r.len() implies r[j] == permuted(s, pi)[j] by {
        lemma_permutation_onto(pi, j);
        let i = pi.index_of(j);
        assert(r[pi[i]] == s[i]);
    }
    assert(r =~= permuted(s, pi));
}

/// The slot tables of every face are permutations.
pub proof fn lemma_face_permutations(f: BaseMoveToken)
    ensures
        is_permutation(corner_perm(f)),
        is_permutation(edge_perm(f)),
        corner_perm(f).len() == 8,
        edge_perm(f).len() == 12,
{
}

} // verus!
