//! Facts about sequences and the sets of their elements.
use vstd::prelude::*;

verus! {

/// Inserting an element into a sequence, anywhere, adds it to the sequence's set.
pub proof fn lemma_insert_to_set<T>(s: Seq<T>, i: int, x: T)
    requires
        0 <= i <= s.len(),
    ensures
        s.insert(i, x).to_set() == s.to_set().insert(x),
{
    let after = s.insert(i, x);
    assert forall|k: T| #[trigger] after.to_set().contains(k) <==> s.to_set().insert(x).contains(k) by {
        if after.contains(k) {
            let j = choose|j: int| 0 <= j < after.len() && after[j] == k;
            if j < i {
                assert(s[j] == k);
            } else if j > i {
                assert(s[j - 1] == k);
            }
        }
        if s.contains(k) {
            let j = choose|j: int| 0 <= j < s.len() && s[j] == k;
            if j < i {
                assert(after[j] == k);
            } else {
                assert(after[j + 1] == k);
            }
        }
        if k == x {
            assert(after[i] == k);
        }
    }
    assert(after.to_set() =~= s.to_set().insert(x));
}

/// Pushing an element onto a sequence adds it to the sequence's set.
pub proof fn lemma_push_to_set<T>(s: Seq<T>, x: T)
    ensures
        s.push(x).to_set() == s.to_set().insert(x),
{
    assert(s.push(x) =~= s.insert(s.len() as int, x));
    lemma_insert_to_set(s, s.len() as int, x);
}

} // verus!
