//! Ordering values by where they stand in a project: an insertion sort,
//! and the reversal of vectors.

use vstd::multiset::Multiset;
use vstd::prelude::*;

verus! {

/// A total preorder on the values of a type, with a test that decides it.
pub trait LocationOrdered: Sized {
    /// Whether `self` may stand before `other` (ties allowed).
    spec fn goes_before(self, other: Self) -> bool;

    /// Any two values are ordered one way or the other.
    proof fn lemma_goes_before_total(a: Self, b: Self)
        ensures
            a.goes_before(b) || b.goes_before(a),
    ;

    /// The order is transitive.
    proof fn lemma_goes_before_transitive(a: Self, b: Self, c: Self)
        requires
            a.goes_before(b),
            b.goes_before(c),
        ensures
            a.goes_before(c),
    ;

    /// Decides `goes_before`.
    fn goes_before_exec(&self, other: &Self) -> (before: bool)
        ensures
            before == self.goes_before(*other),
    ;
}

/// Whether a sequence is ordered: every value may stand before every later one.
pub open spec fn sorted_by_location<T: LocationOrdered>(items: Seq<T>) -> bool {
    forall|i: int, j: int| 0 <= i < j < items.len() ==> #[trigger] items[i].goes_before(#[trigger] items[j])
}

/// Inserting a value after every value that goes before it and before a value
/// that it goes before keeps a sequence ordered.
proof fn lemma_insert_keeps_sorted<T: LocationOrdered>(sorted: Seq<T>, k: int, item: T)
    requires
        sorted_by_location(sorted),
        0 <= k <= sorted.len(),
        forall|i: int| 0 <= i < k ==> #[trigger] sorted[i].goes_before(item),
        k < sorted.len() ==> item.goes_before(sorted[k]),
    ensures
        sorted_by_location(sorted.insert(k, item)),
{
    let inserted = sorted.insert(k, item);
    assert forall|i: int, j: int| 0 <= i < j < inserted.len() implies #[trigger] inserted[i].goes_before(
        #[trigger] inserted[j],
    ) by {
        if j < k {
            assert(sorted[i].goes_before(sorted[j]));
        } else if j == k {
            assert(sorted[i].goes_before(item));
        } else if i < k {
            assert(sorted[i].goes_before(sorted[j - 1]));
        } else if i == k {
            if j - 1 > k {
                assert(sorted[k].goes_before(sorted[j - 1]));
                T::lemma_goes_before_transitive(item, sorted[k], sorted[j - 1]);
            }
        } else {
            assert(sorted[i - 1].goes_before(sorted[j - 1]));
        }
    }
}

/// Sorts values by location: the result is ordered and holds the same values.
pub fn sort_by_location<T: LocationOrdered>(items: Vec<T>) -> (sorted: Vec<T>)
    ensures
        sorted_by_location(sorted@),
        sorted@.to_multiset() == items@.to_multiset(),
{
    broadcast use vstd::seq_lib::group_to_multiset_ensures, vstd::multiset::group_multiset_axioms;

    let mut rest = items;
    let mut sorted: Vec<T> = Vec::new();
    assert(sorted@.to_multiset() =~= Multiset::empty());
    assert(sorted@.to_multiset().add(rest@.to_multiset()) =~= items@.to_multiset());
    while rest.len() > 0
        invariant
            sorted_by_location(sorted@),
            sorted@.to_multiset().add(rest@.to_multiset()) == items@.to_multiset(),
        decreases rest@.len(),
    {
        let ghost before_rest = rest@;
        let item = match rest.pop() {
            Some(last) => last,
            None => {
                return sorted;
            },
        };
        assert(before_rest =~= rest@.push(item));
        proof {
            vstd::seq_lib::to_multiset_build(rest@, item);
        }
        let mut k: usize = 0;
        loop
            invariant
                k <= sorted@.len(),
                forall|i: int| 0 <= i < k ==> #[trigger] sorted@[i].goes_before(item),
            ensures
                k <= sorted@.len(),
                forall|i: int| 0 <= i < k ==> #[trigger] sorted@[i].goes_before(item),
                k < sorted@.len() ==> item.goes_before(sorted@[k as int]),
            decreases sorted@.len() - k,
        {
            if k == sorted.len() {
                break;
            }
            if item.goes_before_exec(&sorted[k]) {
                break;
            }
            proof {
                T::lemma_goes_before_total(item, sorted@[k as int]);
            }
            k = k + 1;
        }
        proof {
            lemma_insert_keeps_sorted(sorted@, k as int, item);
        }
        let ghost before_sorted = sorted@;
        sorted.insert(k, item);
        proof {
            vstd::seq_lib::to_multiset_insert(before_sorted, k as int, item);
            assert(sorted@ == before_sorted.insert(k as int, item));
        }
        assert(sorted@.to_multiset().add(rest@.to_multiset()) =~= items@.to_multiset());
    }
    assert(rest@.to_multiset() =~= Multiset::empty());
    assert(sorted@.to_multiset().add(rest@.to_multiset()) =~= sorted@.to_multiset());
    sorted
}


/// Two sequences with the same elements keep the same elements under a map.
pub proof fn lemma_map_values_same_multiset<A, B>(a: Seq<A>, b: Seq<A>, f: spec_fn(A) -> B)
    requires
        a.to_multiset() == b.to_multiset(),
    ensures
        a.map_values(f).to_multiset() == b.map_values(f).to_multiset(),
    decreases a.len(),
{
    broadcast use vstd::seq_lib::group_to_multiset_ensures, vstd::multiset::group_multiset_axioms;

    if a.len() == 0 {
        vstd::seq_lib::to_multiset_len(a);
        vstd::seq_lib::to_multiset_len(b);
        assert(b.len() == 0);
        assert(a.map_values(f) =~= Seq::<B>::empty());
        assert(b.map_values(f) =~= Seq::<B>::empty());
    } else {
        let x = a.last();
        let rest_a = a.drop_last();
        assert(a =~= rest_a.push(x));
        assert(a.to_multiset().count(x) > 0);
        assert(b.contains(x));
        let j = choose|j: int| 0 <= j < b.len() && b[j] == x;
        let rest_b = b.remove(j);
        assert(rest_b.to_multiset() == b.to_multiset().remove(x));
        assert(rest_a.push(x).to_multiset() == rest_a.to_multiset().insert(x));
        assert(rest_a.to_multiset() =~= rest_b.to_multiset());
        lemma_map_values_same_multiset(rest_a, rest_b, f);
        assert(a.map_values(f) =~= rest_a.map_values(f).push(f(x)));
        assert(a.map_values(f).to_multiset() == rest_a.map_values(f).to_multiset().insert(f(x)));
        assert(rest_b.map_values(f) =~= b.map_values(f).remove(j));
        assert(b.map_values(f).remove(j).to_multiset() == b.map_values(f).to_multiset().remove(f(x)));
        assert(b.map_values(f).to_multiset().count(f(x)) > 0) by {
            assert(b.map_values(f)[j] == f(x));
            assert(b.map_values(f).contains(f(x)));
        }
        assert(b.map_values(f).to_multiset() =~= b.map_values(f).to_multiset().remove(f(x)).insert(f(x)));
    }
}

/// Reverses a vector.
pub fn reversed<T>(items: Vec<T>) -> (result: Vec<T>)
    ensures
        result@ == items@.reverse(),
{
    let ghost original = items@;
    let mut rest = items;
    let mut result: Vec<T> = Vec::new();
    while rest.len() > 0
        invariant
            original == rest@ + result@.reverse(),
        decreases rest@.len(),
    {
        let ghost before_rest = rest@;
        let ghost before_result = result@;
        let item = rest.pop().unwrap();
        result.push(item);
        assert(before_rest =~= rest@.push(item));
        assert(result@.reverse() =~= seq![item] + before_result.reverse());
        assert(original =~= rest@ + result@.reverse());
    }
    assert(original =~= result@.reverse());
    assert(result@ =~= original.reverse());
    result
}

} // verus!
