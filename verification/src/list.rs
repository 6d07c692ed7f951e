//! A doubly-linked sequence whose nodes live in an arena and name each other by slot.

use vstd::prelude::*;
use vstd::string::StringExecFns;
use crate::edits::Edit;
use crate::element::Element;
use crate::node::Node;
use crate::text::{push_bracketed, rendering};

verus! {

/// The slot that precedes position `i` of `slots`, if any.
pub open spec fn slot_before(slots: Seq<usize>, i: int) -> Option<usize> {
    if 0 < i < slots.len() {
        Some(slots[i - 1])
    } else {
        None
    }
}

/// The slot that follows position `i` of `slots`, if any.
pub open spec fn slot_after(slots: Seq<usize>, i: int) -> Option<usize> {
    if 0 <= i < slots.len() - 1 {
        Some(slots[i + 1])
    } else {
        None
    }
}

/// Whether `f`, asked where `item` goes, may let the scan move on past `existing`.
pub open spec fn may_pass<T, F: Fn(&T, &T) -> (bool, bool)>(f: F, item: T, existing: T) -> bool {
    exists|before: bool| call_ensures(f, (&item, &existing), (false, before))
}

/// Whether a scan of `s` from the head, asking `f` at each element, may come to rest
/// at position `at` with the verdict `before`: `f` lets it pass every earlier
/// element, and at `at` it either says stop or there is no further element to go to.
pub open spec fn may_settle<T, F: Fn(&T, &T) -> (bool, bool)>(
    f: F,
    item: T,
    s: Seq<T>,
    at: int,
    before: bool,
) -> bool {
    &&& 0 <= at < s.len()
    &&& forall|j: int| 0 <= j < at ==> may_pass(f, item, #[trigger] s[j])
    &&& exists|stop: bool|
        call_ensures(f, (&item, &s[at]), (stop, before)) && (stop || at == s.len() - 1)
}

/// Whether `f` may accept the element at `at` after refusing every earlier one.
pub open spec fn may_match_first<T, F: Fn(&T) -> bool>(f: F, s: Seq<T>, at: int) -> bool {
    &&& 0 <= at < s.len()
    &&& call_ensures(f, (&s[at],), true)
    &&& forall|j: int| 0 <= j < at ==> call_ensures(f, (&#[trigger] s[j],), false)
}

/// Whether `f` may refuse every element of `s`.
pub open spec fn may_match_none<T, F: Fn(&T) -> bool>(f: F, s: Seq<T>) -> bool {
    forall|j: int| 0 <= j < s.len() ==> call_ensures(f, (&#[trigger] s[j],), false)
}

/// Whether every answer of `f` is what `accepts` says of the element.
pub open spec fn decides<T, F: Fn(&T) -> bool>(f: F, accepts: spec_fn(T) -> bool) -> bool {
    forall|e: T, r: bool| call_ensures(f, (&e,), r) ==> r == accepts(e)
}

/// What `delete_any` leaves of `before` when its predicate decides: `before`
/// without the first element that is accepted, one element less, where there is
/// one; `before` itself where there is none.
pub proof fn lemma_delete_any_decided<T, F: Fn(&T) -> bool>(
    f: F,
    accepts: spec_fn(T) -> bool,
    before: Seq<T>,
    after: Seq<T>,
)
    requires
        decides(f, accepts),
        ({
            ||| exists|at: int|
                #[trigger] may_match_first(f, before, at) && after == before.remove(at)
            ||| may_match_none(f, before) && after == before
        }),
    ensures
        (exists|i: int| 0 <= i < before.len() && accepts(#[trigger] before[i])) ==> exists|at: int|
            {
                &&& 0 <= at < before.len()
                &&& accepts(#[trigger] before[at])
                &&& forall|j: int| 0 <= j < at ==> !accepts(#[trigger] before[j])
                &&& after == before.remove(at)
                &&& after.len() == before.len() - 1
            },
        (forall|i: int| 0 <= i < before.len() ==> !accepts(#[trigger] before[i])) ==> after
            == before,
{
    if may_match_none(f, before) {
        assert forall|i: int| 0 <= i < before.len() implies !accepts(#[trigger] before[i]) by {
            assert(call_ensures(f, (&before[i],), false));
        }
    }
    if exists|at: int| #[trigger] may_match_first(f, before, at) && after == before.remove(at) {
        let at = choose|at: int|
            #[trigger] may_match_first(f, before, at) && after == before.remove(at);
        assert(accepts(before[at]));
        assert forall|j: int| 0 <= j < at implies !accepts(#[trigger] before[j]) by {
            assert(call_ensures(f, (&before[j],), false));
        }
    }
}

/// `chain` names distinct nodes of `nodes`, each linked to its neighbours in `chain`.
spec fn threaded<T>(nodes: Seq<Node<T>>, chain: Seq<usize>) -> bool {
    &&& forall|i: int| 0 <= i < chain.len() ==> (#[trigger] chain[i]) < nodes.len()
    &&& forall|i: int, j: int| 0 <= i < j < chain.len() ==> chain[i] != chain[j]
    &&& forall|i: int|
        0 <= i < chain.len() ==> {
            &&& (#[trigger] nodes[chain[i] as int]).next == slot_after(chain, i)
            &&& nodes[chain[i] as int].prev == slot_before(chain, i)
        }
}

/// `spare` names distinct nodes of `nodes`, each pointing with `next` at the one below it.
spec fn stacked<T>(nodes: Seq<Node<T>>, spare: Seq<usize>) -> bool {
    &&& forall|i: int| 0 <= i < spare.len() ==> (#[trigger] spare[i]) < nodes.len()
    &&& forall|i: int, j: int| 0 <= i < j < spare.len() ==> spare[i] != spare[j]
    &&& forall|i: int|
        0 <= i < spare.len() ==> (#[trigger] nodes[spare[i] as int]).next == slot_before(spare, i)
}

/// No slot occurs in both `a` and `b`.
spec fn disjoint(a: Seq<usize>, b: Seq<usize>) -> bool {
    forall|i: int, j: int| 0 <= i < a.len() && 0 <= j < b.len() ==> a[i] != b[j]
}

/// The elements that the nodes named by `chain` hold, in the order of `chain`.
spec fn items_of<T>(nodes: Seq<Node<T>>, chain: Seq<usize>) -> Seq<T> {
    Seq::new(chain.len(), |i: int| nodes[chain[i] as int].item)
}

/// Linking the unused node `slot` in at position `at`, between its two neighbours,
/// keeps the chain threaded and leaves the pool alone.
proof fn lemma_thread_in<T>(
    was: Seq<Node<T>>,
    now: Seq<Node<T>>,
    chain: Seq<usize>,
    spare: Seq<usize>,
    at: int,
    slot: usize,
)
    requires
        threaded(was, chain),
        stacked(was, spare),
        disjoint(chain, spare),
        0 < at < chain.len(),
        slot < was.len(),
        !chain.contains(slot),
        !spare.contains(slot),
        now.len() == was.len(),
        now[slot as int].prev == Some(chain[at - 1]),
        now[slot as int].next == Some(chain[at]),
        now[chain[at - 1] as int] == (Node { next: Some(slot), ..was[chain[at - 1] as int] }),
        now[chain[at] as int] == (Node { prev: Some(slot), ..was[chain[at] as int] }),
        forall|x: int|
            0 <= x < was.len() && x != slot && x != chain[at - 1] && x != chain[at] ==> now[x]
                == was[x],
    ensures
        threaded(now, chain.insert(at, slot)),
        stacked(now, spare),
        disjoint(chain.insert(at, slot), spare),
        items_of(now, chain.insert(at, slot)) == items_of(was, chain).insert(
            at,
            now[slot as int].item,
        ),
{
    let grown = chain.insert(at, slot);
    assert forall|i: int| 0 <= i < grown.len() implies {
        &&& (#[trigger] grown[i]) < now.len()
        &&& now[grown[i] as int].next == slot_after(grown, i)
        &&& now[grown[i] as int].prev == slot_before(grown, i)
    } by {
        if i < at {
            assert(grown[i] == chain[i]);
            assert(was[chain[i] as int].next == slot_after(chain, i));
        } else if i > at {
            assert(grown[i] == chain[i - 1]);
            assert(was[chain[i - 1] as int].next == slot_after(chain, i - 1));
        }
    }
    assert forall|i: int, j: int| 0 <= i < j < grown.len() implies grown[i] != grown[j] by {
        let a = if i < at { i } else { i - 1 };
        let b = if j < at { j } else { j - 1 };
        if i != at {
            assert(grown[i] == chain[a]);
        }
        if j != at {
            assert(grown[j] == chain[b]);
        }
    }
    assert forall|i: int, j: int| 0 <= i < grown.len() && 0 <= j < spare.len() implies grown[i]
        != spare[j] by {
        if i < at {
            assert(grown[i] == chain[i]);
        } else if i > at {
            assert(grown[i] == chain[i - 1]);
        }
    }
    assert forall|i: int| 0 <= i < spare.len() implies (#[trigger] now[spare[i] as int]).next
        == slot_before(spare, i) by {
        assert(was[spare[i] as int].next == slot_before(spare, i));
    }
    assert(items_of(now, grown) =~= items_of(was, chain).insert(at, now[slot as int].item)) by {
        assert forall|i: int| 0 <= i < grown.len() implies items_of(now, grown)[i] == items_of(
            was,
            chain,
        ).insert(at, now[slot as int].item)[i] by {
            if i < at {
                assert(grown[i] == chain[i]);
            } else if i > at {
                assert(grown[i] == chain[i - 1]);
            }
        }
    }
}

/// A double-ended sequence of elements, linked in both directions.
///
/// Nodes are stored in an arena and refer to their neighbours by slot, so a link
/// can be followed or rewritten in constant time and no node owns another. Slots
/// that a removal vacates are chained up and handed out again before the arena
/// grows.
pub struct List<T: Copy> {
    nodes: Vec<Node<T>>,
    head: Option<usize>,
    size: usize,
    last: Option<usize>,
    vacant: Option<usize>,
    chain: Ghost<Seq<usize>>,
    spare: Ghost<Seq<usize>>,
}

impl<T: Copy> View for List<T> {
    type V = Seq<T>;

    /// The elements, from head to tail.
    closed spec fn view(&self) -> Seq<T> {
        items_of(self.nodes@, self.chain@)
    }
}

impl<T: Copy> List<T> {
    /// The arena slot of each element, from head to tail.
    pub closed spec fn slots(&self) -> Seq<usize> {
        self.chain@
    }

    /// The node at position `i`, as `get_head`, `get_last` and `node` hand it out.
    pub open spec fn node_at(&self, i: int) -> Node<T> {
        Node {
            item: self@[i],
            next: slot_after(self.slots(), i),
            prev: slot_before(self.slots(), i),
        }
    }

    /// The chain from `head` follows `chain` forwards and backwards and ends at `last`.
    spec fn linked(&self) -> bool {
        let chain = self.chain@;
        &&& self.size == chain.len()
        &&& self.head == (if chain.len() == 0 { None } else { Some(chain[0]) })
        &&& self.last == (if chain.len() == 0 { None } else { Some(chain[chain.len() - 1]) })
        &&& threaded(self.nodes@, chain)
    }

    /// The vacated slots form a stack threaded through `next`, `vacant` on top.
    spec fn pooled(&self) -> bool {
        let spare = self.spare@;
        &&& self.vacant == (if spare.len() == 0 { None } else { Some(spare[spare.len() - 1]) })
        &&& stacked(self.nodes@, spare)
    }

    /// No slot is both linked and vacant.
    spec fn apart(&self) -> bool {
        disjoint(self.chain@, self.spare@)
    }

    /// The list is a true doubly-linked chain and every arena slot is either linked
    /// into it or vacant.
    pub closed spec fn wf(&self) -> bool {
        &&& self.linked()
        &&& self.pooled()
        &&& self.apart()
        &&& self.chain@.len() + self.spare@.len() == self.nodes@.len()
    }

    /// As `wf`, but for `slot`, which is neither linked nor vacant.
    spec fn wf_but(&self, slot: usize) -> bool {
        &&& self.linked()
        &&& self.pooled()
        &&& self.apart()
        &&& self.chain@.len() + self.spare@.len() + 1 == self.nodes@.len()
        &&& slot < self.nodes@.len()
        &&& !self.chain@.contains(slot)
        &&& !self.spare@.contains(slot)
    }

    /// A well-formed list has one slot per element, and no slot twice.
    pub proof fn lemma_slots(&self)
        requires
            self.wf(),
        ensures
            self.slots().len() == self@.len(),
            self.slots().no_duplicates(),
            self@.len() <= usize::MAX,
    {
    }

    /// An empty list.
    pub fn new() -> (list: Self)
        ensures
            list.wf(),
            list@ == Seq::<T>::empty(),
    {
        Self {
            nodes: Vec::new(),
            head: None,
            size: 0,
            last: None,
            vacant: None,
            chain: Ghost(Seq::empty()),
            spare: Ghost(Seq::empty()),
        }
    }

    /// The number of elements.
    pub fn len(&self) -> (n: usize)
        requires
            self.wf(),
        ensures
            n == self@.len(),
    {
        self.size
    }

    /// Whether the list holds no element.
    pub fn is_empty(&self) -> (empty: bool)
        requires
            self.wf(),
        ensures
            empty == (self@.len() == 0),
    {
        self.size == 0
    }

    /// Takes a slot out of the pool, or grows the arena by one, and stores `item` there.
    fn acquire(&mut self, item: T) -> (slot: usize)
        requires
            old(self).wf(),
        ensures
            final(self).wf_but(slot),
            final(self).nodes@[slot as int] == (Node { item, next: None, prev: None }),
            final(self).chain@ == old(self).chain@,
            final(self)@ == old(self)@,
    {
        match self.vacant {
            Some(slot) => {
                self.vacant = self.nodes[slot].next;
                self.nodes[slot] = Node::new(item);
                proof {
                    self.spare@ = self.spare@.drop_last();
                }
                slot
            },
            None => {
                self.nodes.push(Node::new(item));
                self.nodes.len() - 1
            },
        }
    }

    /// Puts `slot` on top of the pool.
    fn release(&mut self, slot: usize)
        requires
            old(self).wf_but(slot),
        ensures
            final(self).wf(),
            final(self).chain@ == old(self).chain@,
            final(self)@ == old(self)@,
    {
        self.nodes[slot].next = self.vacant;
        self.nodes[slot].prev = None;
        self.vacant = Some(slot);
        proof {
            self.spare@ = self.spare@.push(slot);
        }
    }

    /// The node at the head, if the list is not empty.
    pub fn get_head(&self) -> (node: Option<&Node<T>>)
        requires
            self.wf(),
        ensures
            node == (if self@.len() == 0 { None } else { Some(&self.node_at(0)) }),
    {
        match self.head {
            Some(head) => Some(&self.nodes[head]),
            None => None,
        }
    }

    /// The node at the tail, if the list is not empty.
    pub fn get_last(&self) -> (node: Option<&Node<T>>)
        requires
            self.wf(),
        ensures
            node == (if self@.len() == 0 { None } else { Some(&self.node_at(self@.len() - 1)) }),
    {
        match self.last {
            Some(last) => Some(&self.nodes[last]),
            None => None,
        }
    }

    /// The node that lives in `slot`, for following a `next` or `prev` link.
    pub fn node(&self, slot: usize) -> (node: &Node<T>)
        requires
            self.wf(),
            self.slots().contains(slot),
        ensures
            forall|i: int|
                0 <= i < self@.len() && #[trigger] self.slots()[i] == slot ==> *node
                    == self.node_at(i),
    {
        &self.nodes[slot]
    }

    /// Attaches `item` behind the tail.
    pub fn push_back(&mut self, item: T)
        requires
            old(self).wf(),
        ensures
            final(self).wf(),
            final(self)@ == old(self)@.push(item),
            final(self)@ == Edit::PushBack(item).apply(old(self)@),
            final(self).slots().drop_last() == old(self).slots(),
    {
        let slot = self.acquire(item);
        match self.last {
            Some(last) => {
                self.nodes[last].next = Some(slot);
                self.nodes[slot].prev = Some(last);
                self.last = Some(slot);
                assert(self.size < self.nodes.len());
                self.size += 1;
            },
            None => {
                self.head = Some(slot);
                self.last = Some(slot);
                self.size = 1;
            },
        }
        proof {
            self.chain@ = self.chain@.push(slot);
        }
    }

    /// Attaches `item` in front of the head.
    pub fn push_front(&mut self, item: T)
        requires
            old(self).wf(),
        ensures
            final(self).wf(),
            final(self)@ == seq![item] + old(self)@,
            final(self)@ == Edit::PushFront(item).apply(old(self)@),
            final(self).slots().drop_first() == old(self).slots(),
    {
        let slot = self.acquire(item);
        match self.head {
            Some(head) => {
                self.nodes[head].prev = Some(slot);
                self.nodes[slot].next = Some(head);
                self.head = Some(slot);
                assert(self.size < self.nodes.len());
                self.size += 1;
            },
            None => {
                self.head = Some(slot);
                self.last = Some(slot);
                self.size = 1;
            },
        }
        proof {
            self.chain@ = seq![slot] + self.chain@;
        }
    }

    /// Detaches the tail and returns its element; `None` when the list is empty.
    pub fn pop_back(&mut self) -> (item: Option<T>)
        requires
            old(self).wf(),
        ensures
            final(self).wf(),
            old(self)@.len() == 0 ==> {
                &&& item is None
                &&& final(self)@ == old(self)@
                &&& final(self).slots() == old(self).slots()
            },
            old(self)@.len() > 0 ==> {
                &&& item == Some(old(self)@.last())
                &&& final(self)@ == old(self)@.drop_last()
                &&& final(self).slots() == old(self).slots().drop_last()
            },
            final(self)@ == Edit::<T>::PopBack.apply(old(self)@),
    {
        match self.last {
            None => None,
            Some(last) => {
                self.size -= 1;
                match self.nodes[last].prev {
                    Some(node) => {
                        self.nodes[node].next = None;
                        self.last = Some(node);
                    },
                    None => {
                        self.head = None;
                        self.last = None;
                    },
                }
                let item = self.nodes[last].item;
                proof {
                    self.chain@ = self.chain@.drop_last();
                }
                self.release(last);
                Some(item)
            },
        }
    }

    /// Detaches the head and returns its element; `None` when the list is empty.
    pub fn pop_front(&mut self) -> (item: Option<T>)
        requires
            old(self).wf(),
        ensures
            final(self).wf(),
            old(self)@.len() == 0 ==> {
                &&& item is None
                &&& final(self)@ == old(self)@
                &&& final(self).slots() == old(self).slots()
            },
            old(self)@.len() > 0 ==> {
                &&& item == Some(old(self)@.first())
                &&& final(self)@ == old(self)@.drop_first()
                &&& final(self).slots() == old(self).slots().drop_first()
            },
            final(self)@ == Edit::<T>::PopFront.apply(old(self)@),
    {
        match self.head {
            None => None,
            Some(head) => {
                self.size -= 1;
                match self.nodes[head].next {
                    Some(node) => {
                        self.nodes[node].prev = None;
                        self.head = Some(node);
                    },
                    None => {
                        self.head = None;
                        self.last = None;
                    },
                }
                let item = self.nodes[head].item;
                proof {
                    self.chain@ = self.chain@.drop_first();
                }
                self.release(head);
                Some(item)
            },
        }
    }

    /// Places `item` where `f` says.
    ///
    /// The scan starts at the head and asks `f(item, existing)` at each element; the
    /// answer is `(stop, before)`. It moves on while `stop` is false and there is a
    /// next element. Where it comes to rest, `item` is linked in immediately before
    /// that element if `before` holds, immediately after it otherwise. An empty list
    /// just receives `item`.
    pub fn insert(&mut self, item: T, f: impl Fn(&T, &T) -> (bool, bool))
        requires
            old(self).wf(),
            forall|i: int|
                0 <= i < old(self)@.len() ==> call_requires(f, (&item, &#[trigger] old(self)@[i])),
        ensures
            final(self).wf(),
            old(self)@.len() == 0 ==> final(self)@ == seq![item],
            old(self)@.len() > 0 ==> exists|at: int, before: bool|
                {
                    let place = if before { at } else { at + 1 };
                    &&& #[trigger] may_settle(f, item, old(self)@, at, before)
                    &&& final(self)@ == old(self)@.insert(place, item)
                    &&& final(self).slots().remove(place) == old(self).slots()
                },
    {
        match self.head {
            Some(head) => {
                let mut current_node = head;
                let mut find_pos = false;
                let mut push_before = false;
                let ghost mut at: int = 0;
                loop
                    invariant_except_break
                        !find_pos,
                    invariant
                        self.wf(),
                        self@ == old(self)@,
                        self.slots() == old(self).slots(),
                        0 <= at < self@.len(),
                        self.chain@[at] == current_node,
                        forall|j: int| 0 <= j < at ==> may_pass(f, item, #[trigger] self@[j]),
                        forall|i: int|
                            0 <= i < self@.len() ==> call_requires(
                                f,
                                (&item, &#[trigger] self@[i]),
                            ),
                    ensures
                        find_pos ==> call_ensures(f, (&item, &self@[at]), (true, push_before)),
                        !find_pos ==> at == self@.len() - 1,
                    decreases self@.len() - at,
                {
                    match self.nodes[current_node].next {
                        Some(next) => {
                            let (exit, is_before) = f(&item, &self.nodes[current_node].item);
                            push_before = is_before;
                            if exit {
                                find_pos = true;
                                break ;
                            }
                            current_node = next;
                            proof {
                                at = at + 1;
                            }
                        },
                        None => {
                            break ;
                        },
                    }
                }
                if !find_pos {
                    let (_find, is_before) = f(&item, &self.nodes[current_node].item);
                    push_before = is_before;
                }
                assert(may_settle(f, item, old(self)@, at, push_before));
                self.append(current_node, item, push_before, Ghost(at));
            },
            None => {
                self.push_back(item);
            },
        }
    }

    /// Links `item` in next to the node in slot `current_node`, which is at position
    /// `at`: immediately before it if `push_before` holds, immediately after it
    /// otherwise.
    fn append(&mut self, current_node: usize, item: T, push_before: bool, Ghost(at): Ghost<int>)
        requires
            old(self).wf(),
            0 <= at < old(self)@.len(),
            old(self).chain@[at] == current_node,
        ensures
            final(self).wf(),
            final(self)@ == old(self)@.insert(if push_before { at } else { at + 1 }, item),
            final(self).slots().remove(if push_before { at } else { at + 1 }) == old(self).slots(),
    {
        if push_before {
            match self.nodes[current_node].prev {
                Some(prev) => {
                    self.link_between(prev, current_node, item, Ghost(at));
                },
                None => {
                    self.push_front(item);
                },
            }
            return ;
        }
        match self.nodes[current_node].next {
            Some(next) => {
                self.link_between(current_node, next, item, Ghost(at + 1));
            },
            None => {
                self.push_back(item);
                assert(self@ =~= old(self)@.insert(at + 1, item));
            },
        }
    }

    /// Links `item` in between the neighbours in slots `prev` and `next`, so that it
    /// takes position `at`.
    fn link_between(&mut self, prev: usize, next: usize, item: T, Ghost(at): Ghost<int>)
        requires
            old(self).wf(),
            0 < at < old(self)@.len(),
            old(self).chain@[at - 1] == prev,
            old(self).chain@[at] == next,
        ensures
            final(self).wf(),
            final(self)@ == old(self)@.insert(at, item),
            final(self).slots().remove(at) == old(self).slots(),
    {
        let slot = self.acquire(item);
        let ghost was = self.nodes@;
        let ghost chain = self.chain@;
        self.nodes[prev].next = Some(slot);
        self.nodes[slot].prev = Some(prev);
        self.nodes[slot].next = Some(next);
        self.nodes[next].prev = Some(slot);
        assert(self.size < self.nodes.len());
        self.size += 1;
        proof {
            self.chain@ = chain.insert(at, slot);
            lemma_thread_in(was, self.nodes@, chain, self.spare@, at, slot);
        }
    }

    /// Removes the first element, from the head on, that `f` accepts; a list in which
    /// `f` accepts nothing is left as it is.
    pub fn delete_any(&mut self, f: impl Fn(&T) -> bool)
        requires
            old(self).wf(),
            forall|i: int|
                0 <= i < old(self)@.len() ==> call_requires(f, (&#[trigger] old(self)@[i],)),
        ensures
            final(self).wf(),
            ({
                ||| exists|at: int|
                    {
                        &&& #[trigger] may_match_first(f, old(self)@, at)
                        &&& final(self)@ == old(self)@.remove(at)
                        &&& final(self).slots() == old(self).slots().remove(at)
                    }
                ||| {
                    &&& may_match_none(f, old(self)@)
                    &&& final(self)@ == old(self)@
                    &&& final(self).slots() == old(self).slots()
                }
            }),
    {
        if let Some(head) = self.head {
            let mut current_node = head;
            let mut find_node = false;
            let ghost mut at: int = 0;
            loop
                invariant_except_break
                    !find_node,
                invariant
                    self.wf(),
                    self@ == old(self)@,
                    self.slots() == old(self).slots(),
                    0 <= at < self@.len(),
                    self.chain@[at] == current_node,
                    forall|j: int| 0 <= j < at ==> call_ensures(f, (&#[trigger] self@[j],), false),
                    forall|i: int|
                        0 <= i < self@.len() ==> call_requires(f, (&#[trigger] self@[i],)),
                ensures
                    find_node ==> call_ensures(f, (&self@[at],), true),
                    !find_node ==> at == self@.len() - 1,
                decreases self@.len() - at,
            {
                match self.nodes[current_node].next {
                    Some(next) => {
                        assert(self@[at] == self.nodes@[current_node as int].item);
                        if f(&self.nodes[current_node].item) {
                            find_node = true;
                            break ;
                        }
                        current_node = next;
                        proof {
                            at = at + 1;
                        }
                    },
                    None => {
                        break ;
                    },
                }
            }
            if !find_node {
                assert(self@[at] == self.nodes@[current_node as int].item);
                if f(&self.nodes[current_node].item) {
                    find_node = true;
                }
            }
            if !find_node {
                return ;
            }
            assert(may_match_first(f, old(self)@, at));
            match (self.nodes[current_node].prev, self.nodes[current_node].next) {
                (None, _) => {
                    self.pop_front();
                    assert(self.slots() =~= old(self).slots().remove(at));
                },
                (Some(_), None) => {
                    self.pop_back();
                },
                (Some(prev), Some(next)) => {
                    self.nodes[prev].next = Some(next);
                    self.nodes[next].prev = Some(prev);
                    self.size -= 1;
                    proof {
                        self.chain@ = self.chain@.remove(at);
                    }
                    self.release(current_node);
                },
            }
        }
    }
}

impl<T: Element> List<T> {
    /// The elements from head to tail as text, `(1) <-> (2) <-> (3)`; `()` for an
    /// empty list.
    pub fn to_string(&self) -> (text: String)
        requires
            self.wf(),
        ensures
            text@ == rendering(self@),
    {
        let mut text = String::new();
        match self.head {
            Some(head) => {
                let mut current_node = head;
                let ghost mut at: int = 0;
                push_bracketed(&mut text, &self.nodes[head].item);
                loop
                    invariant
                        self.wf(),
                        0 <= at < self@.len(),
                        self.chain@[at] == current_node,
                        text@ == rendering(self@.take(at + 1)),
                    ensures
                        at == self@.len() - 1,
                    decreases self@.len() - at,
                {
                    match self.nodes[current_node].next {
                        Some(next) => {
                            proof {
                                reveal_strlit(" <-> ");
                                assert(self@.take(at + 2).drop_last() =~= self@.take(at + 1));
                            }
                            text.append(" <-> ");
                            push_bracketed(&mut text, &self.nodes[next].item);
                            current_node = next;
                            proof {
                                at = at + 1;
                            }
                        },
                        None => {
                            break ;
                        },
                    }
                }
                assert(self@.take(at + 1) =~= self@);
            },
            None => {
                proof {
                    reveal_strlit("()");
                }
                text.append("()");
            },
        }
        text
    }
}

impl<T: Copy> From<Vec<T>> for List<T> {
    /// The list that holds the elements of `items`, in their order.
    fn from(items: Vec<T>) -> (list: Self)
        ensures
            list.wf(),
            list@ == items@,
    {
        let mut list = List::new();
        let mut i: usize = 0;
        while i < items.len()
            invariant
                list.wf(),
                i <= items.len(),
                list@ == items@.take(i as int),
            decreases items.len() - i,
        {
            list.push_back(items[i]);
            i += 1;
        }
        assert(items@.take(i as int) =~= items@);
        list
    }
}

impl<T: Copy> vstd::std_specs::convert::FromSpecImpl<Vec<T>> for List<T> {
    open spec fn obeys_from_spec() -> bool {
        false
    }

    open spec fn from_spec(items: Vec<T>) -> Self {
        choose|list: Self| list.wf() && list@ == items@
    }
}

} // verus!
