//! What it means for a value to be the sum of two members of a window, and for a
//! stream to be valid against the window that slides along it.

use vstd::prelude::*;
use crate::element::Element;

verus! {

/// The sum of the values at positions `i` and `j` of `s`, in unbounded arithmetic.
pub open spec fn pair_sum<T: Element>(s: Seq<T>, i: int, j: int) -> int {
    s[i].value() + s[j].value()
}

/// Whether two members of `s`, at different positions, sum to `target`.
pub open spec fn has_pair_sum<T: Element>(s: Seq<T>, target: T) -> bool {
    exists|i: int, j: int| 0 <= i < j < s.len() && #[trigger] pair_sum(s, i, j) == target.value()
}

/// The window that position `k` of `queue` is checked against: the `window.len()`
/// values that precede it in the stream `window + queue`.
pub open spec fn window_at<T>(window: Seq<T>, queue: Seq<T>, k: int) -> Seq<T> {
    (window + queue).subrange(k, k + window.len())
}

/// Whether the value at position `k` of `queue` is the sum of two members of its window.
pub open spec fn valid_at<T: Element>(window: Seq<T>, queue: Seq<T>, k: int) -> bool {
    has_pair_sum(window_at(window, queue, k), queue[k])
}

/// Whether each of the first `n` values of `queue` is valid against its window.
pub open spec fn valid_upto<T: Element>(window: Seq<T>, queue: Seq<T>, n: int) -> bool {
    forall|k: int| 0 <= k < n ==> #[trigger] valid_at(window, queue, k)
}

/// An element that a sequence holds twice or more sits at two different positions.
proof fn lemma_twice_held<T>(s: Seq<T>, a: T)
    requires
        s.to_multiset().count(a) >= 2,
    ensures
        exists|i: int, j: int| 0 <= i < j < s.len() && #[trigger] s[i] == a && #[trigger] s[j] == a,
{
    broadcast use {vstd::seq_lib::group_to_multiset_ensures, vstd::multiset::group_multiset_axioms};

    let i = choose|i: int| 0 <= i < s.len() && s[i] == a;
    let rest = s.remove(i);
    assert(rest.to_multiset().count(a) > 0);
    let k = choose|k: int| 0 <= k < rest.len() && rest[k] == a;
    let j = if k < i { k } else { k + 1 };
    assert(j != i && s[j] == a);
}

/// An element at two different positions of a sequence is held twice or more.
proof fn lemma_held_twice<T>(s: Seq<T>, i: int, j: int)
    requires
        0 <= i < j < s.len(),
        s[i] == s[j],
    ensures
        s.to_multiset().count(s[i]) >= 2,
{
    broadcast use {vstd::seq_lib::group_to_multiset_ensures, vstd::multiset::group_multiset_axioms};

    let rest = s.remove(i);
    assert(rest[j - 1] == s[j]);
    assert(rest.to_multiset().count(s[i]) > 0);
}

/// A pair that sums to `target` in `s` has a counterpart in every sequence that
/// holds the same elements as often.
proof fn lemma_pair_sum_carries_over<T: Element>(s: Seq<T>, other: Seq<T>, target: T)
    requires
        s.to_multiset() == other.to_multiset(),
        has_pair_sum(s, target),
    ensures
        has_pair_sum(other, target),
{
    broadcast use vstd::seq_lib::group_to_multiset_ensures;

    let (i, j) = choose|i: int, j: int|
        0 <= i < j < s.len() && #[trigger] pair_sum(s, i, j) == target.value();
    if s[i] == s[j] {
        lemma_held_twice(s, i, j);
        lemma_twice_held(other, s[i]);
        let (a, b) = choose|a: int, b: int|
            0 <= a < b < other.len() && #[trigger] other[a] == s[i] && #[trigger] other[b] == s[i];
        assert(pair_sum(other, a, b) == target.value());
    } else {
        assert(other.to_multiset().count(s[i]) > 0);
        assert(other.to_multiset().count(s[j]) > 0);
        let a = choose|a: int| 0 <= a < other.len() && other[a] == s[i];
        let b = choose|b: int| 0 <= b < other.len() && other[b] == s[j];
        if a < b {
            assert(pair_sum(other, a, b) == target.value());
        } else {
            assert(pair_sum(other, b, a) == target.value());
        }
    }
}

/// Whether two members sum to a target depends on which elements a window holds
/// and how often, not on their order.
pub proof fn lemma_pair_sum_ignores_order<T: Element>(s: Seq<T>, other: Seq<T>, target: T)
    requires
        s.to_multiset() == other.to_multiset(),
    ensures
        has_pair_sum(s, target) == has_pair_sum(other, target),
{
    if has_pair_sum(s, target) {
        lemma_pair_sum_carries_over(s, other, target);
    }
    if has_pair_sum(other, target) {
        lemma_pair_sum_carries_over(other, s, target);
    }
}

/// A run can stop at one position only: the first value that is not valid, given
/// that all before it are, is the same whoever looks for it.
pub proof fn lemma_first_invalid_is_unique<T: Element>(
    window: Seq<T>,
    queue: Seq<T>,
    k: int,
    other: int,
)
    requires
        0 <= k,
        0 <= other,
        valid_upto(window, queue, k),
        !valid_at(window, queue, k),
        valid_upto(window, queue, other),
        !valid_at(window, queue, other),
    ensures
        k == other,
{
}

} // verus!
