//! Counting keys: how often a key occurs in a sequence, and why grouping a sequence
//! under distinct keys that cover it keeps every element exactly once.
use vstd::prelude::*;

verus! {

/// How many elements of `s` equal `k`.
pub open spec fn occurrences(s: Seq<Seq<char>>, k: Seq<char>) -> nat
    decreases s.len(),
{
    if s.len() == 0 {
        0
    } else {
        occurrences(s.drop_last(), k) + if s.last() == k {
            1nat
        } else {
            0nat
        }
    }
}

/// The occurrences in `s` of every key of `keys`, added up.
pub open spec fn total_occurrences(keys: Seq<Seq<char>>, s: Seq<Seq<char>>) -> nat
    decreases keys.len(),
{
    if keys.len() == 0 {
        0
    } else {
        total_occurrences(keys.drop_last(), s) + occurrences(s, keys.last())
    }
}

/// No key occurs twice.
pub open spec fn all_distinct(keys: Seq<Seq<char>>) -> bool {
    forall|i: int, j: int| 0 <= i < j < keys.len() ==> keys[i] != keys[j]
}

proof fn lemma_occurrences_absent(s: Seq<Seq<char>>, k: Seq<char>)
    requires
        !s.contains(k),
    ensures
        occurrences(s, k) == 0,
    decreases s.len(),
{
    if s.len() > 0 {
        assert(!s.drop_last().contains(k)) by {
            if s.drop_last().contains(k) {
                let i = choose|i: int| 0 <= i < s.drop_last().len() && s.drop_last()[i] == k;
                assert(s[i] == k);
            }
        }
        assert(s.last() == s[s.len() - 1]);
        lemma_occurrences_absent(s.drop_last(), k);
    }
}

proof fn lemma_occurrences_once(keys: Seq<Seq<char>>, k: Seq<char>)
    requires
        all_distinct(keys),
        keys.contains(k),
    ensures
        occurrences(keys, k) == 1,
    decreases keys.len(),
{
    let front = keys.drop_last();
    if keys.last() == k {
        assert(!front.contains(k)) by {
            if front.contains(k) {
                let i = choose|i: int| 0 <= i < front.len() && front[i] == k;
                assert(keys[i] == keys[keys.len() - 1]);
            }
        }
        lemma_occurrences_absent(front, k);
    } else {
        let i = choose|i: int| 0 <= i < keys.len() && keys[i] == k;
        assert(i < keys.len() - 1);
        assert(front[i] == k);
        lemma_occurrences_once(front, k);
    }
}

proof fn lemma_total_of_empty(keys: Seq<Seq<char>>)
    ensures
        total_occurrences(keys, Seq::empty()) == 0,
    decreases keys.len(),
{
    if keys.len() > 0 {
        lemma_total_of_empty(keys.drop_last());
    }
}

proof fn lemma_total_push(keys: Seq<Seq<char>>, s: Seq<Seq<char>>, x: Seq<char>)
    ensures
        total_occurrences(keys, s.push(x)) == total_occurrences(keys, s) + occurrences(keys, x),
    decreases keys.len(),
{
    assert(s.push(x).drop_last() =~= s);
    if keys.len() > 0 {
        lemma_total_push(keys.drop_last(), s, x);
    }
}

/// Under distinct keys that cover every element of `s`, the occurrences of all the
/// keys add up to the length of `s`: each element is counted exactly once.
pub proof fn lemma_total_occurrences(keys: Seq<Seq<char>>, s: Seq<Seq<char>>)
    requires
        all_distinct(keys),
        forall|m: int| 0 <= m < s.len() ==> keys.contains(#[trigger] s[m]),
    ensures
        total_occurrences(keys, s) == s.len(),
    decreases s.len(),
{
    if s.len() == 0 {
        lemma_total_of_empty(keys);
        assert(s =~= Seq::<Seq<char>>::empty());
    } else {
        let front = s.drop_last();
        assert(forall|m: int| 0 <= m < front.len() ==> #[trigger] front[m] == s[m]);
        lemma_total_occurrences(keys, front);
        lemma_total_push(keys, front, s.last());
        assert(keys.contains(s[s.len() - 1]));
        lemma_occurrences_once(keys, s.last());
        assert(front.push(s.last()) =~= s);
    }
}

} // verus!
