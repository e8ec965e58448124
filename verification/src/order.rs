//! Line numbers in ascending order.

use std::collections::HashMap;
use vstd::prelude::*;
use vstd::std_specs::iter::IteratorSpec;

verus! {

broadcast use vstd::std_specs::hash::group_hash_axioms;

/// Every element of `s` is smaller than all that follow it.
pub open spec fn strictly_ascending(s: Seq<usize>) -> bool {
    forall|i: int, j: int| 0 <= i < j < s.len() ==> s[i] < s[j]
}

/// The members of `keys` that are smaller than `bound`, smallest first.
pub open spec fn ascending_below(keys: Set<usize>, bound: nat) -> Seq<usize>
    decreases bound,
{
    if bound == 0 {
        Seq::empty()
    } else {
        let rest = ascending_below(keys, (bound - 1) as nat);
        if keys.contains((bound - 1) as usize) {
            rest.push((bound - 1) as usize)
        } else {
            rest
        }
    }
}

/// The members of `keys`, smallest first.
pub open spec fn ascending_keys(keys: Set<usize>) -> Seq<usize> {
    ascending_below(keys, (usize::MAX + 1) as nat)
}

/// `ascending_below` lists exactly the members of `keys` under `bound`, each
/// once and in ascending order.
pub proof fn lemma_ascending_below(keys: Set<usize>, bound: nat)
    requires
        bound <= usize::MAX + 1,
    ensures
        strictly_ascending(ascending_below(keys, bound)),
        forall|k: usize| #[trigger]
            ascending_below(keys, bound).contains(k) <==> keys.contains(k) && k < bound,
    decreases bound,
{
    if bound > 0 {
        let rest = ascending_below(keys, (bound - 1) as nat);
        let top = (bound - 1) as usize;
        lemma_ascending_below(keys, (bound - 1) as nat);
        if keys.contains(top) {
            let all = rest.push(top);
            assert forall|i: int, j: int| 0 <= i < j < all.len() implies all[i] < all[j] by {
                assert(rest.contains(all[i]));
                if j < rest.len() {
                    assert(all[j] == rest[j]);
                }
            }
            assert forall|k: usize| #[trigger] all.contains(k) <==> keys.contains(k) && k
                < bound by {
                if all.contains(k) {
                    let i = choose|i: int| 0 <= i < all.len() && all[i] == k;
                    if i < rest.len() {
                        assert(rest.contains(k));
                    }
                }
                if keys.contains(k) && k < bound {
                    if k == top {
                        assert(all[rest.len() as int] == k);
                    } else {
                        assert(rest.contains(k));
                        let i = choose|i: int| 0 <= i < rest.len() && rest[i] == k;
                        assert(all[i] == k);
                    }
                }
            }
        }
    }
}

/// A strictly ascending sequence is fixed by its members.
pub proof fn lemma_ascending_unique(s: Seq<usize>, keys: Set<usize>, bound: nat)
    requires
        bound <= usize::MAX + 1,
        strictly_ascending(s),
        forall|k: usize| #[trigger] s.contains(k) <==> keys.contains(k) && k < bound,
    ensures
        s == ascending_below(keys, bound),
    decreases bound,
{
    if bound == 0 {
        if s.len() > 0 {
            assert(s.contains(s[0]));
        }
        assert(s =~= Seq::empty());
    } else {
        let top = (bound - 1) as usize;
        if keys.contains(top) {
            assert(s.contains(top));
            let at = choose|i: int| 0 <= i < s.len() && s[i] == top;
            if at < s.len() - 1 {
                assert(s.contains(s[at + 1]));
            }
            let front = s.drop_last();
            assert forall|k: usize| #[trigger] front.contains(k) <==> keys.contains(k) && k
                < bound - 1 by {
                if front.contains(k) {
                    let i = choose|i: int| 0 <= i < front.len() && front[i] == k;
                    assert(s[i] == k);
                    assert(s.contains(k));
                }
                if keys.contains(k) && k < bound - 1 {
                    assert(s.contains(k));
                    let i = choose|i: int| 0 <= i < s.len() && s[i] == k;
                    assert(front[i] == k);
                }
            }
            lemma_ascending_unique(front, keys, (bound - 1) as nat);
            assert(s =~= front.push(top));
        } else {
            assert forall|k: usize| #[trigger] s.contains(k) implies k < bound - 1 by {}
            lemma_ascending_unique(s, keys, (bound - 1) as nat);
        }
    }
}

/// The keys of a match set come out of `ascending_keys` sorted, each once,
/// and none is left out.
pub proof fn lemma_ascending_keys(keys: Set<usize>)
    ensures
        strictly_ascending(ascending_keys(keys)),
        forall|k: usize| #[trigger] ascending_keys(keys).contains(k) <==> keys.contains(k),
{
    lemma_ascending_below(keys, (usize::MAX + 1) as nat);
}

/// Puts `key` into the ascending vector `sorted` at its place.
fn insert_ascending(sorted: &mut Vec<usize>, key: usize)
    requires
        strictly_ascending(old(sorted)@),
        !old(sorted)@.contains(key),
    ensures
        strictly_ascending(final(sorted)@),
        forall|k: usize| #[trigger]
            final(sorted)@.contains(k) <==> k == key || old(sorted)@.contains(k),
{
    let mut at: usize = 0;
    while at < sorted.len() && sorted[at] < key
        invariant
            at <= sorted.len(),
            sorted@ == old(sorted)@,
            forall|j: int| 0 <= j < at ==> sorted@[j] < key,
        decreases sorted.len() - at,
    {
        at += 1;
    }
    let ghost before = sorted@;
    proof {
        assert forall|j: int| at <= j < before.len() implies key < before[j] by {
            assert(before.contains(before[at as int]));
            assert(before.contains(before[j]));
        }
    }
    sorted.insert(at, key);
    proof {
        let after = sorted@;
        assert forall|k: usize| #[trigger] after.contains(k) <==> k == key || before.contains(
            k,
        ) by {
            if after.contains(k) {
                let i = choose|i: int| 0 <= i < after.len() && after[i] == k;
                if i < at {
                    assert(before[i] == k);
                } else if i > at {
                    assert(before[i - 1] == k);
                }
            }
            if k == key {
                assert(after[at as int] == k);
            } else if before.contains(k) {
                let i = choose|i: int| 0 <= i < before.len() && before[i] == k;
                if i < at {
                    assert(after[i] == k);
                } else {
                    assert(after[i + 1] == k);
                }
            }
        }
    }
}

/// The line numbers of a match set, smallest first.
pub fn sorted_keys(results: &HashMap<usize, String>) -> (keys: Vec<usize>)
    ensures
        keys@ == ascending_keys(results@.dom()),
{
    let mut keys: Vec<usize> = Vec::new();
    let ghost all: Seq<usize> = results.keys().remaining().unref();
    for key in it: results.keys()
        invariant
            all == it.seq().unref(),
            it.seq().unref().to_set() == results@.dom(),
            it.seq().no_duplicates(),
            strictly_ascending(keys@),
            forall|k: usize| #[trigger]
                keys@.contains(k) <==> exists|j: int| 0 <= j < it.index() && all[j] == k,
    {
        let ghost before = keys@;
        let ghost index = it.index() as int;
        proof {
            if before.contains(*key) {
                let j = choose|j: int| 0 <= j < index && all[j] == *key;
                assert(all[index] == *key);
                assert(it.seq()[j] == it.seq()[index]);
            }
        }
        insert_ascending(&mut keys, *key);
        proof {
            assert forall|k: usize| #[trigger] keys@.contains(k) <==> exists|j: int|
                0 <= j < index + 1 && all[j] == k by {
                if keys@.contains(k) {
                    if k == *key {
                        assert(all[index] == k);
                    } else {
                        let j = choose|j: int| 0 <= j < index && all[j] == k;
                        assert(0 <= j < index + 1 && all[j] == k);
                    }
                }
            }
        }
    }
    proof {
        let dom = results@.dom();
        assert forall|k: usize| #[trigger] keys@.contains(k) <==> dom.contains(k) && k
            < usize::MAX + 1 by {
            if keys@.contains(k) {
                let j = choose|j: int| 0 <= j < all.len() && all[j] == k;
                assert(all.to_set().contains(k));
            }
            if dom.contains(k) {
                assert(all.to_set().contains(k));
                let j = choose|j: int| 0 <= j < all.len() && all[j] == k;
                assert(0 <= j < all.len() && all[j] == k);
            }
        }
        lemma_ascending_unique(keys@, dom, (usize::MAX + 1) as nat);
    }
    keys
}

} // verus!
