//! First-match search over sequences, shared by every keyed table of the
//! engine: the record store, the per-scope activation configs and the two
//! rule-program stores. `first_index` returns the index of the first
//! element satisfying a predicate, or -1; the lemmas here are what the
//! operations' proofs lean on when a table is read, extended or updated.

use vstd::prelude::*;

verus! {

/// The index of the first element of `s` satisfying `pred`, or -1.
pub open spec fn first_index<T>(s: Seq<T>, pred: spec_fn(T) -> bool) -> int
    decreases s.len(),
{
    if s.len() == 0 {
        -1
    } else if pred(s[0]) {
        0
    } else {
        let rest = first_index(s.drop_first(), pred);
        if rest == -1 {
            -1
        } else {
            1 + rest
        }
    }
}

/// What `first_index` returns: either -1 and nothing matches, or the first
/// matching index.
pub proof fn lemma_first_index_props<T>(s: Seq<T>, pred: spec_fn(T) -> bool)
    ensures
        first_index(s, pred) == -1 ==> forall|i: int| 0 <= i < s.len() ==> !pred(#[trigger] s[i]),
        first_index(s, pred) != -1 ==> {
            let fi = first_index(s, pred);
            &&& 0 <= fi < s.len()
            &&& pred(s[fi])
            &&& forall|j: int| 0 <= j < fi ==> !pred(#[trigger] s[j])
        },
    decreases s.len(),
{
    if s.len() > 0 && !pred(s[0]) {
        let d = s.drop_first();
        lemma_first_index_props(d, pred);
        let rest = first_index(d, pred);
        if rest == -1 {
            assert forall|i: int| 0 <= i < s.len() implies !pred(#[trigger] s[i]) by {
                if i > 0 {
                    assert(d[i - 1] == s[i]);
                    assert(!pred(d[i - 1]));
                }
            }
        } else {
            assert(d[rest] == s[1 + rest]);
            assert forall|j: int| 0 <= j < 1 + rest implies !pred(#[trigger] s[j]) by {
                if j > 0 {
                    assert(d[j - 1] == s[j]);
                    assert(!pred(d[j - 1]));
                }
            }
        }
    }
}

/// A found first match pins `first_index` down.
pub proof fn lemma_first_index_at<T>(s: Seq<T>, pred: spec_fn(T) -> bool, i: int)
    requires
        0 <= i < s.len(),
        pred(s[i]),
        forall|j: int| 0 <= j < i ==> !pred(#[trigger] s[j]),
    ensures
        first_index(s, pred) == i,
{
    lemma_first_index_props(s, pred);
    let fi = first_index(s, pred);
    if fi == -1 {
        assert(!pred(s[i]));
    } else if fi < i {
        assert(!pred(s[fi]));
    } else if i < fi {
        assert(!pred(s[i]));
    }
}

/// When nothing matches, `first_index` says so.
pub proof fn lemma_first_index_none<T>(s: Seq<T>, pred: spec_fn(T) -> bool)
    requires
        forall|j: int| 0 <= j < s.len() ==> !pred(#[trigger] s[j]),
    ensures
        first_index(s, pred) == -1,
{
    lemma_first_index_props(s, pred);
    let fi = first_index(s, pred);
    if fi != -1 {
        assert(!pred(s[fi]));
    }
}

/// `first_index` only looks at the predicate's value on each element:
/// two sequences that agree on it agree on the index.
pub proof fn lemma_first_index_congruence<T>(s1: Seq<T>, s2: Seq<T>, pred: spec_fn(T) -> bool)
    requires
        s1.len() == s2.len(),
        forall|i: int| 0 <= i < s1.len() ==> pred(#[trigger] s1[i]) == pred(#[trigger] s2[i]),
    ensures
        first_index(s1, pred) == first_index(s2, pred),
    decreases s1.len(),
{
    if s1.len() > 0 && !pred(s1[0]) {
        assert(forall|i: int| 0 <= i < s1.drop_first().len() ==> s1.drop_first()[i] == s1[i + 1]);
        assert(forall|i: int| 0 <= i < s2.drop_first().len() ==> s2.drop_first()[i] == s2[i + 1]);
        lemma_first_index_congruence(s1.drop_first(), s2.drop_first(), pred);
    }
}

/// Appending changes the index only when nothing matched before.
pub proof fn lemma_first_index_push<T>(s: Seq<T>, pred: spec_fn(T) -> bool, x: T)
    ensures
        first_index(s.push(x), pred) == if first_index(s, pred) != -1 {
            first_index(s, pred)
        } else if pred(x) {
            s.len() as int
        } else {
            -1
        },
{
    lemma_first_index_props(s, pred);
    let fi = first_index(s, pred);
    assert(forall|j: int| 0 <= j < s.len() ==> s.push(x)[j] == s[j]);
    assert(s.push(x)[s.len() as int] == x);
    if fi != -1 {
        lemma_first_index_at(s.push(x), pred, fi);
    } else if pred(x) {
        lemma_first_index_at(s.push(x), pred, s.len() as int);
    } else {
        lemma_first_index_none(s.push(x), pred);
    }
}

} // verus!
