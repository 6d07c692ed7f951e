//! Pushes and pops as values, to state what any succession of them does to a list.

use vstd::prelude::*;

verus! {

/// One push or pop at either end of a list.
pub enum Edit<T> {
    PushBack(T),
    PushFront(T),
    PopBack,
    PopFront,
}

impl<T> Edit<T> {
    /// What a list that held `s` holds after this edit: what `push_back`,
    /// `push_front`, `pop_back` and `pop_front` leave behind.
    pub open spec fn apply(self, s: Seq<T>) -> Seq<T> {
        match self {
            Edit::PushBack(item) => s.push(item),
            Edit::PushFront(item) => seq![item] + s,
            Edit::PopBack => if s.len() == 0 {
                s
            } else {
                s.drop_last()
            },
            Edit::PopFront => if s.len() == 0 {
                s
            } else {
                s.drop_first()
            },
        }
    }

    /// What this edit counts for on a list that holds `s`: one for a push, minus one
    /// for a pop that finds an element, nothing for a pop that finds none.
    pub open spec fn count(self, s: Seq<T>) -> int {
        match self {
            Edit::PushBack(_) | Edit::PushFront(_) => 1,
            Edit::PopBack | Edit::PopFront => if s.len() == 0 {
                0
            } else {
                -1
            },
        }
    }
}

/// What a list that held `s` holds after `edits`, applied from first to last.
pub open spec fn apply_all<T>(s: Seq<T>, edits: Seq<Edit<T>>) -> Seq<T>
    decreases edits.len(),
{
    if edits.len() == 0 {
        s
    } else {
        edits.last().apply(apply_all(s, edits.drop_last()))
    }
}

/// The pushes of `edits` minus its pops that find an element, on a list that held `s`.
pub open spec fn net_count<T>(s: Seq<T>, edits: Seq<Edit<T>>) -> int
    decreases edits.len(),
{
    if edits.len() == 0 {
        0
    } else {
        net_count(s, edits.drop_last()) + edits.last().count(apply_all(s, edits.drop_last()))
    }
}

/// After any succession of pushes and pops, a list is longer than before by the
/// number of pushes minus the number of pops that found an element.
pub proof fn lemma_len_is_net_count<T>(s: Seq<T>, edits: Seq<Edit<T>>)
    ensures
        apply_all(s, edits).len() == s.len() + net_count(s, edits),
    decreases edits.len(),
{
    if edits.len() > 0 {
        lemma_len_is_net_count(s, edits.drop_last());
    }
}

/// Three elements pushed at the back stand behind what the list held, in the order
/// in which they were pushed; an element pushed at the front after them stands
/// before everything.
pub proof fn lemma_pushes_keep_order<T>(s: Seq<T>, a: T, b: T, c: T, z: T)
    ensures
        apply_all(s, seq![Edit::PushBack(a), Edit::PushBack(b), Edit::PushBack(c)]) == s + seq![
            a,
            b,
            c,
        ],
        apply_all(
            s,
            seq![Edit::PushBack(a), Edit::PushBack(b), Edit::PushBack(c), Edit::PushFront(z)],
        ) == seq![z] + s + seq![a, b, c],
{
    let one = seq![Edit::PushBack(a)];
    let two = seq![Edit::PushBack(a), Edit::PushBack(b)];
    let three = seq![Edit::PushBack(a), Edit::PushBack(b), Edit::PushBack(c)];
    let four = seq![Edit::PushBack(a), Edit::PushBack(b), Edit::PushBack(c), Edit::PushFront(z)];
    assert(two.drop_last() =~= one);
    assert(three.drop_last() =~= two);
    assert(four.drop_last() =~= three);
    assert(apply_all(s, one.drop_last()) == s);
    assert(apply_all(s, one) == s.push(a));
    assert(apply_all(s, two) == s.push(a).push(b));
    assert(apply_all(s, three) == s.push(a).push(b).push(c));
}

} // verus!
