//! The validator: a window kept in two orders, and a queue of values to check
//! against it.

use vstd::prelude::*;
use crate::element::{Balance, Element};
use crate::list::{decides, lemma_delete_any_decided, may_match_first, may_match_none, List};
use crate::order::{
    ascending,
    ascending_rule,
    lemma_insert_keeps_ascending,
    lemma_ascending_remove,
    obeys_ascending_rule,
};
use crate::window::{
    has_pair_sum,
    lemma_pair_sum_ignores_order,
    pair_sum,
    valid_at,
    valid_upto,
    window_at,
};

verus! {

/// How a run ended.
#[derive(PartialEq, Debug)]
pub enum ResultAppList<T> {
    /// The first queued value that is not the sum of two members of its window.
    Insecure(T),
    /// The queue was drained and every value passed.
    Secure,
    /// There was nothing to check: no window, or no queued value.
    EmptyList,
    /// The window holds a single element, so no two members can be summed.
    Missing,
}

/// A window of elements in ascending order (`sorted_list`) and in order of arrival
/// (`safe_list`), and the queue of values still to be checked (`insecure_list`).
pub struct AppList<T: Element> {
    pub sorted_list: List<T>,
    pub safe_list: List<T>,
    pub insecure_list: List<T>,
}

/// The comparator that keeps a list ascending: it stops the scan, to go in front,
/// at the first element greater than the one to insert.
pub fn insert_before<U: Element>(item_to_insert: &U, current_item: &U) -> (verdict: (bool, bool))
    ensures
        verdict == ascending_rule(*item_to_insert, *current_item),
{
    let is_before = true;
    if item_to_insert.precedes(current_item) {
        return (true, is_before);
    }
    (false, !is_before)
}

impl<T: Element> AppList<T> {
    /// The three lists are well formed and `sorted_list` is ascending.
    pub open spec fn wf(&self) -> bool {
        &&& self.sorted_list.wf()
        &&& self.safe_list.wf()
        &&& self.insecure_list.wf()
        &&& ascending(self.sorted_list@)
    }

    /// `sorted_list` and `safe_list` hold the same window: the same elements, as often.
    pub open spec fn seeded(&self) -> bool {
        &&& self.wf()
        &&& self.sorted_list@.to_multiset() == self.safe_list@.to_multiset()
    }

    /// A validator with no window and nothing queued.
    pub fn new() -> (app: Self)
        ensures
            app.seeded(),
            app.sorted_list@.len() == 0,
            app.safe_list@.len() == 0,
            app.insecure_list@.len() == 0,
    {
        Self { sorted_list: List::new(), safe_list: List::new(), insecure_list: List::new() }
    }

    /// Installs the elements of `list`, in ascending order, as the sorted window.
    pub fn add_sorted_list(&mut self, list: Vec<T>)
        requires
            old(self).wf(),
        ensures
            final(self).wf(),
            final(self).sorted_list@.to_multiset() == list@.to_multiset(),
            final(self).safe_list == old(self).safe_list,
            final(self).insecure_list == old(self).insecure_list,
    {
        let mut sorted = List::new();
        let mut i: usize = 0;
        proof {
            assert(list@.take(0) =~= Seq::<T>::empty());
        }
        while i < list.len()
            invariant
                sorted.wf(),
                ascending(sorted@),
                i <= list.len(),
                sorted@.to_multiset() == list@.take(i as int).to_multiset(),
            decreases list.len() - i,
        {
            let ghost before = sorted@;
            sorted.insert(list[i], insert_before);
            proof {
                assert(list@.take(i + 1) =~= list@.take(i as int).push(list@[i as int]));
                vstd::seq_lib::to_multiset_build(list@.take(i as int), list@[i as int]);
                lemma_insert_before_obeys::<T>();
                lemma_insert_keeps_ascending(insert_before::<T>, list@[i as int], before, sorted@);
            }
            i += 1;
        }
        assert(list@.take(i as int) =~= list@);
        self.sorted_list = sorted;
    }

    /// Installs the elements of `list`, in their order, as the window in order of arrival.
    pub fn add_safe_list(&mut self, list: Vec<T>)
        requires
            old(self).wf(),
        ensures
            final(self).wf(),
            final(self).safe_list@ == list@,
            final(self).sorted_list == old(self).sorted_list,
            final(self).insecure_list == old(self).insecure_list,
    {
        self.safe_list = List::from(list);
    }

    /// Installs the elements of `list`, in their order, as the queue of values to check.
    pub fn add_insecure_list(&mut self, list: Vec<T>)
        requires
            old(self).wf(),
        ensures
            final(self).wf(),
            final(self).insecure_list@ == list@,
            final(self).sorted_list == old(self).sorted_list,
            final(self).safe_list == old(self).safe_list,
    {
        self.insecure_list = List::from(list);
    }

    /// Whether two members of the window, at different positions, sum to `target`.
    ///
    /// One cursor starts at the head of the sorted window and one at its tail; a sum
    /// that falls short moves the left one forward, a sum that overshoots moves the
    /// right one back, until they find the target or meet.
    pub fn has_two_sum(&self, target: T) -> (found: bool)
        requires
            self.wf(),
        ensures
            found == has_pair_sum(self.sorted_list@, target),
    {
        let list = &self.sorted_list;
        proof {
            list.lemma_slots();
        }
        let (head, last) = match (list.get_head(), list.get_last()) {
            (Some(head), Some(last)) => (head, last),
            _ => {
                return false;
            },
        };
        if head.next.is_none() {
            return false;
        }
        let mut init_node = head;
        let mut last_node = last;
        let mut left: usize = 0;
        let mut right: usize = list.len() - 1;
        while left < right
            invariant
                *list == self.sorted_list,
                list.wf(),
                ascending(list@),
                list.slots().len() == list@.len(),
                left <= right < list@.len(),
                *init_node == list.node_at(left as int),
                *last_node == list.node_at(right as int),
                forall|i: int, j: int|
                    0 <= i < j < list@.len() && #[trigger] pair_sum(list@, i, j) == target.value()
                        ==> left <= i && j <= right,
            decreases right - left,
        {
            match init_node.item.weigh(&last_node.item, &target) {
                Balance::Exact => {
                    assert(pair_sum(list@, left as int, right as int) == target.value());
                    return true;
                },
                Balance::Short => {
                    left += 1;
                    let next = init_node.next.unwrap();
                    init_node = list.node(next);
                },
                Balance::Over => {
                    right -= 1;
                    let prev = last_node.prev.unwrap();
                    last_node = list.node(prev);
                },
            }
        }
        false
    }

    /// Checks the queued values, in order, against the window that slides along the
    /// stream, and stops at the first that is not the sum of two members of its window.
    ///
    /// Returns how many values passed and how the run ended. A value that passes
    /// enters the window and the oldest member leaves it; a value that fails is taken
    /// off the queue and reported, and the window stays as that value met it.
    /// A window of one element cannot be summed over (`Missing`); without a window,
    /// or without a queued value, there is nothing to check (`EmptyList`).
    pub fn run(&mut self) -> (outcome: (u128, ResultAppList<T>))
        requires
            old(self).seeded(),
        ensures
            final(self).seeded(),
            ({
                let window = old(self).safe_list@;
                let queue = old(self).insecure_list@;
                let passed = outcome.0 as int;
                if window.len() < 2 || queue.len() == 0 {
                    &&& outcome == (
                        0u128,
                        if window.len() == 1 {
                            ResultAppList::<T>::Missing
                        } else {
                            ResultAppList::<T>::EmptyList
                        },
                    )
                    &&& final(self).safe_list@ == window
                    &&& final(self).sorted_list@ == old(self).sorted_list@
                    &&& final(self).insecure_list@ == queue
                } else {
                    &&& 0 <= passed <= queue.len()
                    &&& valid_upto(window, queue, passed)
                    &&& final(self).safe_list@ == window_at(window, queue, passed)
                    &&& outcome.1 == (if passed < queue.len() {
                        ResultAppList::Insecure(queue[passed])
                    } else {
                        ResultAppList::Secure
                    })
                    &&& passed < queue.len() ==> {
                        &&& !valid_at(window, queue, passed)
                        &&& final(self).insecure_list@ == queue.skip(passed + 1)
                    }
                    &&& passed == queue.len() ==> final(self).insecure_list@.len() == 0
                }
            }),
    {
        let mut node_count: u128 = 0;
        proof {
            vstd::seq_lib::to_multiset_len(self.sorted_list@);
            vstd::seq_lib::to_multiset_len(self.safe_list@);
        }
        if self.sorted_list.len() == 1 {
            return (0, ResultAppList::Missing);
        }
        if self.sorted_list.len() == 0 || self.insecure_list.is_empty() {
            return (0, ResultAppList::EmptyList);
        }
        let ghost window = self.safe_list@;
        let ghost queue = self.insecure_list@;
        proof {
            self.insecure_list.lemma_slots();
        }
        loop
            invariant
                self.seeded(),
                window == old(self).safe_list@,
                queue == old(self).insecure_list@,
                window.len() >= 2,
                node_count <= queue.len() <= usize::MAX,
                valid_upto(window, queue, node_count as int),
                self.safe_list@ == window_at(window, queue, node_count as int),
                self.insecure_list@ == queue.skip(node_count as int),
            ensures
                node_count == queue.len(),
            decreases queue.len() - node_count,
        {
            let item = match self.insecure_list.pop_front() {
                Some(item) => item,
                None => {
                    break ;
                },
            };
            let is_secure = self.has_two_sum(item);
            proof {
                lemma_pair_sum_ignores_order(self.sorted_list@, self.safe_list@, item);
            }
            if !is_secure {
                return (node_count, ResultAppList::Insecure(item));
            }
            // The number is secure: it enters the window and the oldest member leaves.
            let ghost safe_was = self.safe_list@;
            let ghost sorted_was = self.sorted_list@;
            self.safe_list.push_back(item);
            let n = self.safe_list.pop_front().unwrap();
            self.sorted_list.insert(item, insert_before);
            let ghost sorted_grown = self.sorted_list@;
            proof {
                lemma_insert_before_obeys::<T>();
                lemma_insert_keeps_ascending(insert_before::<T>, item, sorted_was, sorted_grown);
            }
            let is_evicted = |e: &T| -> (r: bool)
                ensures
                    r == (e.value() == n.value()),
                { e.same(&n) };
            self.sorted_list.delete_any(is_evicted);
            proof {
                lemma_slide_keeps_window(
                    sorted_was,
                    sorted_grown,
                    self.sorted_list@,
                    safe_was,
                    item,
                    is_evicted,
                );
            }
            node_count += 1;
        }
        (node_count, ResultAppList::Secure)
    }
}

/// Every answer of `insert_before` is the verdict of the ascending rule.
pub proof fn lemma_insert_before_obeys<T: Element>()
    ensures
        obeys_ascending_rule(insert_before::<T>),
{
}

/// After a slide the two orders still hold the same window: the sorted order
/// received `item` and gave up one occurrence of the oldest member, as the order of
/// arrival did.
proof fn lemma_slide_keeps_window<T: Element, F: Fn(&T) -> bool>(
    sorted_was: Seq<T>,
    sorted_grown: Seq<T>,
    sorted_now: Seq<T>,
    safe_was: Seq<T>,
    item: T,
    is_evicted: F,
)
    requires
        safe_was.len() > 0,
        sorted_was.to_multiset() == safe_was.to_multiset(),
        ascending(sorted_grown),
        sorted_grown.to_multiset() == sorted_was.to_multiset().insert(item),
        decides(is_evicted, |e: T| e.value() == safe_was[0].value()),
        ({
            ||| exists|at: int|
                #[trigger] may_match_first(is_evicted, sorted_grown, at) && sorted_now
                    == sorted_grown.remove(at)
            ||| may_match_none(is_evicted, sorted_grown) && sorted_now == sorted_grown
        }),
    ensures
        ascending(sorted_now),
        sorted_now.to_multiset() == safe_was.push(item).remove(0).to_multiset(),
{
    broadcast use {vstd::seq_lib::group_to_multiset_ensures, vstd::multiset::group_multiset_axioms};

    let oldest = safe_was[0];
    let accepts = |e: T| e.value() == oldest.value();
    assert(sorted_grown.to_multiset().count(oldest) > 0);
    let held = choose|k: int| 0 <= k < sorted_grown.len() && sorted_grown[k] == oldest;
    assert(accepts(sorted_grown[held]));
    lemma_delete_any_decided(is_evicted, accepts, sorted_grown, sorted_now);
    let at = choose|at: int|
        {
            &&& 0 <= at < sorted_grown.len()
            &&& accepts(#[trigger] sorted_grown[at])
            &&& sorted_now == sorted_grown.remove(at)
        };
    T::value_is_faithful(sorted_grown[at], oldest);
    lemma_ascending_remove(sorted_grown, at);
}

} // verus!
