//! Ascending order on sequences of elements, and the comparator rule that keeps it.

use vstd::prelude::*;
use crate::element::Element;
use crate::list::may_settle;

verus! {

/// Whether the values of `s` never decrease from left to right.
pub open spec fn ascending<T: Element>(s: Seq<T>) -> bool {
    forall|i: int, j: int| 0 <= i <= j < s.len() ==> s[i].value() <= s[j].value()
}

/// The verdict that keeps a sequence ascending: stop, and go in front, at the first
/// element that is greater than `item`; pass, and stay behind, otherwise.
pub open spec fn ascending_rule<T: Element>(item: T, existing: T) -> (bool, bool) {
    if item.value() < existing.value() {
        (true, true)
    } else {
        (false, false)
    }
}

/// Whether every answer of the comparator `f` is the verdict of `ascending_rule`.
pub open spec fn obeys_ascending_rule<T: Element, F: Fn(&T, &T) -> (bool, bool)>(f: F) -> bool {
    forall|item: T, existing: T, verdict: (bool, bool)|
        call_ensures(f, (&item, &existing), verdict) ==> verdict == ascending_rule(item, existing)
}

/// Whether `place` is where `item` belongs in `s`: behind every element that is not
/// greater, and in front of one that is.
pub open spec fn is_ascending_place<T: Element>(s: Seq<T>, item: T, place: int) -> bool {
    &&& 0 <= place <= s.len()
    &&& forall|j: int| 0 <= j < place ==> (#[trigger] s[j]).value() <= item.value()
    &&& place < s.len() ==> item.value() < s[place].value()
}

/// A scan under the ascending rule comes to rest where the item belongs.
pub proof fn lemma_settle_is_ascending_place<T: Element, F: Fn(&T, &T) -> (bool, bool)>(
    f: F,
    item: T,
    s: Seq<T>,
    at: int,
    before: bool,
)
    requires
        obeys_ascending_rule(f),
        may_settle(f, item, s, at, before),
    ensures
        is_ascending_place(s, item, if before { at } else { at + 1 }),
{
    assert forall|j: int| 0 <= j < at implies (#[trigger] s[j]).value() <= item.value() by {
        let passed = choose|b: bool| call_ensures(f, (&item, &s[j]), (false, b));
        assert((false, passed) == ascending_rule(item, s[j]));
    }
    let stop = choose|stop: bool|
        call_ensures(f, (&item, &s[at]), (stop, before)) && (stop || at == s.len() - 1);
    assert((stop, before) == ascending_rule(item, s[at]));
}

/// What `insert` makes of an ascending list under a comparator that obeys the
/// ascending rule is ascending again, whatever the values and however often they
/// repeat, and holds exactly one `item` more.
pub proof fn lemma_insert_keeps_ascending<T: Element, F: Fn(&T, &T) -> (bool, bool)>(
    f: F,
    item: T,
    before: Seq<T>,
    after: Seq<T>,
)
    requires
        ascending(before),
        obeys_ascending_rule(f),
        before.len() == 0 ==> after == seq![item],
        before.len() > 0 ==> exists|at: int, front: bool|
            {
                &&& #[trigger] may_settle(f, item, before, at, front)
                &&& after == before.insert(if front { at } else { at + 1 }, item)
            },
    ensures
        ascending(after),
        after.to_multiset() == before.to_multiset().insert(item),
{
    if before.len() == 0 {
        assert(after =~= before.insert(0, item));
        vstd::seq_lib::to_multiset_insert(before, 0, item);
    } else {
        let (at, front) = choose|at: int, front: bool|
            {
                &&& #[trigger] may_settle(f, item, before, at, front)
                &&& after == before.insert(if front { at } else { at + 1 }, item)
            };
        let place = if front { at } else { at + 1 };
        lemma_settle_is_ascending_place(f, item, before, at, front);
        vstd::seq_lib::to_multiset_insert(before, place, item);
        assert forall|i: int, j: int| 0 <= i <= j < after.len() implies after[i].value()
            <= after[j].value() by {
            // An element other than `item` stood one place further left if it is
            // behind `place` now.
            if i != place {
                assert(after[i] == before[if i < place { i } else { i - 1 }]);
            }
            if j != place {
                assert(after[j] == before[if j < place { j } else { j - 1 }]);
            }
        }
    }
}

/// Taking an element out of an ascending sequence leaves it ascending.
pub proof fn lemma_ascending_remove<T: Element>(s: Seq<T>, at: int)
    requires
        ascending(s),
        0 <= at < s.len(),
    ensures
        ascending(s.remove(at)),
{
    let rest = s.remove(at);
    assert forall|i: int, j: int| 0 <= i <= j < rest.len() implies rest[i].value()
        <= rest[j].value() by {
        assert(rest[i] == s[if i < at { i } else { i + 1 }]);
        assert(rest[j] == s[if j < at { j } else { j + 1 }]);
    }
}

/// An ascending sequence is determined by the elements it holds and how often:
/// there is one way to put them in order.
pub proof fn lemma_ascending_is_unique<T: Element>(s: Seq<T>, t: Seq<T>)
    requires
        ascending(s),
        ascending(t),
        s.to_multiset() == t.to_multiset(),
    ensures
        s == t,
    decreases s.len(),
{
    broadcast use {vstd::seq_lib::group_to_multiset_ensures, vstd::multiset::group_multiset_axioms};

    assert(s.len() == t.len()) by {
        assert(s.len() == s.to_multiset().len());
        assert(t.len() == t.to_multiset().len());
    }
    if s.len() > 0 {
        // The last elements are the greatest of either sequence, and each occurs in
        // the other: they are the same.
        let n = s.len() - 1;
        assert(t.to_multiset().count(s[n]) > 0 && s.to_multiset().count(t[n]) > 0);
        let i = choose|i: int| 0 <= i < t.len() && t[i] == s[n];
        let j = choose|j: int| 0 <= j < s.len() && s[j] == t[n];
        assert(t[i].value() <= t[n].value() && s[j].value() <= s[n].value());
        T::value_is_faithful(s[n], t[n]);
        assert(s.remove(n) =~= s.drop_last() && t.remove(n) =~= t.drop_last());
        lemma_ascending_remove(s, n);
        lemma_ascending_remove(t, n);
        lemma_ascending_is_unique(s.drop_last(), t.drop_last());
        assert(s =~= s.drop_last().push(s[n]));
        assert(t =~= t.drop_last().push(t[n]));
    }
}

} // verus!
