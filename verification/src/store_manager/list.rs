//! The recency order of the cache: a doubly linked list of keys whose nodes
//! live in the slots of one vector and link to each other by slot number.

use crate::chars::str_eq;
use vstd::prelude::*;

verus! {

/// `s` with the element at position `i` moved to the front.
pub open spec fn moved_to_front<A>(s: Seq<A>, i: int) -> Seq<A> {
    seq![s[i]] + s.remove(i)
}

/// `s` with the first occurrence of `v`, if there is one, moved to the front.
pub open spec fn promoted<A>(s: Seq<A>, v: A) -> Seq<A> {
    match s.index_of_first(v) {
        Some(i) => moved_to_front(s, i),
        None => s,
    }
}

/// The value that follows the first occurrence of `v` in `s`.
pub open spec fn successor<A>(s: Seq<A>, v: A) -> Option<A> {
    match s.index_of_first(v) {
        Some(i) => if i + 1 < s.len() {
            Some(s[i + 1])
        } else {
            None
        },
        None => None,
    }
}

struct Node {
    key: String,
    prev: Option<usize>,
    next: Option<usize>,
}

/// A list of keys, most recently used first.
pub struct List {
    nodes: Vec<Node>,
    first_node: Option<usize>,
    last_node: Option<usize>,
    free: Vec<usize>,
    order: Ghost<Seq<usize>>,
}

impl View for List {
    type V = Seq<Seq<char>>;

    /// The keys of the list, from the first to the last.
    closed spec fn view(&self) -> Seq<Seq<char>> {
        Seq::new(self.order@.len(), |p: int| self.nodes@[self.order@[p] as int].key@)
    }
}

impl List {
    /// The slots of the nodes, from the first node to the last. A node keeps
    /// its slot for as long as it is in the list.
    pub closed spec fn slots(&self) -> Seq<usize> {
        self.order@
    }

    /// The key held in a slot.
    pub closed spec fn key_at(&self, slot: usize) -> Seq<char> {
        self.nodes@[slot as int].key@
    }

    /// The links of the nodes agree with the order of the list.
    #[verifier::opaque]
    spec fn linked(&self) -> bool {
        let order = self.order@;
        &&& order.no_duplicates()
        &&& forall|p: int| 0 <= p < order.len() ==> (#[trigger] order[p]) < self.nodes@.len()
        &&& self.first_node == (if order.len() == 0 {
            None
        } else {
            Some(order[0])
        })
        &&& self.last_node == (if order.len() == 0 {
            None
        } else {
            Some(order.last())
        })
        &&& forall|p: int|
            #![trigger order[p]]
            0 <= p < order.len() ==> self.nodes@[order[p] as int].prev == (if p == 0 {
                None
            } else {
                Some(order[p - 1])
            })
        &&& forall|p: int|
            #![trigger order[p]]
            0 <= p < order.len() ==> self.nodes@[order[p] as int].next == (if p + 1
                == order.len() {
                None
            } else {
                Some(order[p + 1])
            })
    }

    /// The links of the nodes agree with the order of the list, and every
    /// slot is either in the list or free.
    pub closed spec fn wf(&self) -> bool {
        &&& self.linked()
        &&& self.free@.no_duplicates()
        &&& forall|i: int|
            0 <= i < self.free@.len() ==> (#[trigger] self.free@[i]) < self.nodes@.len()
                && !self.order@.contains(self.free@[i])
        &&& self.order@.len() + self.free@.len() == self.nodes@.len()
    }

    /// Every slot but `slot` is either in the list or free, and `slot` is
    /// neither.
    spec fn spare(&self, slot: usize) -> bool {
        &&& self.free@.no_duplicates()
        &&& forall|i: int|
            0 <= i < self.free@.len() ==> (#[trigger] self.free@[i]) < self.nodes@.len()
                && !self.order@.contains(self.free@[i]) && self.free@[i] != slot
        &&& self.order@.len() + self.free@.len() + 1 == self.nodes@.len()
    }

    /// The list reads as the keys in its slots, and no slot occurs twice.
    pub proof fn lemma_slots(&self)
        requires
            self.wf(),
        ensures
            self.slots().no_duplicates(),
            self@.len() == self.slots().len(),
            forall|p: int|
                0 <= p < self@.len() ==> self@[p] == self.key_at(#[trigger] self.slots()[p]),
    {
        reveal(List::linked);
    }

    /// An empty list.
    pub fn new() -> (r: List)
        ensures
            r.wf(),
            r@ == Seq::<Seq<char>>::empty(),
            r.slots() == Seq::<usize>::empty(),
    {
        let r = List {
            nodes: Vec::new(),
            first_node: None,
            last_node: None,
            free: Vec::new(),
            order: Ghost(Seq::empty()),
        };
        reveal(List::linked);
        r
    }

    /// The number of keys in the list.
    pub fn len(&self) -> (n: usize)
        requires
            self.wf(),
        ensures
            n == self@.len(),
    {
        self.nodes.len() - self.free.len()
    }

    /// Puts `key` into a slot that is not in the list, without linking it.
    fn allocate(&mut self, key: String) -> (slot: usize)
        requires
            old(self).wf(),
        ensures
            final(self).linked(),
            final(self).order@ == old(self).order@,
            final(self)@ == old(self)@,
            slot < final(self).nodes@.len(),
            !final(self).order@.contains(slot),
            final(self).nodes@[slot as int].key@ == key@,
            final(self).spare(slot),
            forall|h: usize|
                old(self).order@.contains(h) ==> final(self).nodes@[h as int].key@
                    == old(self).nodes@[h as int].key@,
    {
        reveal(List::linked);
        let slot: usize = match self.free.pop() {
            Some(i) => {
                self.nodes[i].key = key;
                i
            },
            None => {
                self.nodes.push(Node { key, prev: None, next: None });
                self.nodes.len() - 1
            },
        };
        slot
    }

    /// Links the node in `slot`, which is not in the list, in front of the first.
    fn link_first(&mut self, slot: usize)
        requires
            old(self).linked(),
            slot < old(self).nodes@.len(),
            !old(self).order@.contains(slot),
        ensures
            final(self).linked(),
            final(self).order@ == seq![slot] + old(self).order@,
            final(self).free == old(self).free,
            final(self).nodes@.len() == old(self).nodes@.len(),
            forall|h: int|
                0 <= h < final(self).nodes@.len() ==> (#[trigger] final(self).nodes@[h]).key
                    == old(self).nodes@[h].key,
    {
        reveal(List::linked);
        let ghost before = *self;
        let head: Option<usize> = self.first_node;
        self.nodes[slot].prev = None;
        self.nodes[slot].next = head;
        match head {
            Some(h) => {
                assert(h == before.order@[0]);
                self.nodes[h].prev = Some(slot);
            },
            None => {
                self.last_node = Some(slot);
            },
        }
        self.first_node = Some(slot);
        self.order = Ghost(seq![slot] + before.order@);
        proof {
            let order = self.order@;
            assert forall|p: int| 0 <= p < order.len() implies (#[trigger] order[p])
                < self.nodes@.len() by {
                if p > 0 {
                    assert(order[p] == before.order@[p - 1]);
                }
            }
            assert forall|i: int, j: int|
                0 <= i < order.len() && 0 <= j < order.len() && i != j implies order[i]
                != order[j] by {
                if i > 0 {
                    assert(order[i] == before.order@[i - 1]);
                }
                if j > 0 {
                    assert(order[j] == before.order@[j - 1]);
                }
            }
            assert forall|p: int|
                #![trigger order[p]]
                0 <= p < order.len() implies self.nodes@[order[p] as int].prev == (if p == 0 {
                None
            } else {
                Some(order[p - 1])
            }) by {
                if p > 0 {
                    assert(order[p] == before.order@[p - 1]);
                    if p > 1 {
                        assert(order[p - 1] == before.order@[p - 2]);
                    }
                }
            }
            assert forall|p: int|
                #![trigger order[p]]
                0 <= p < order.len() implies self.nodes@[order[p] as int].next == (if p + 1
                == order.len() {
                None
            } else {
                Some(order[p + 1])
            }) by {
                if p > 0 {
                    assert(order[p] == before.order@[p - 1]);
                }
                if p + 1 < order.len() {
                    assert(order[p + 1] == before.order@[p]);
                }
            }
        }
    }

    /// Links the node in `slot`, which is not in the list, behind the last.
    fn link_last(&mut self, slot: usize)
        requires
            old(self).linked(),
            slot < old(self).nodes@.len(),
            !old(self).order@.contains(slot),
        ensures
            final(self).linked(),
            final(self).order@ == old(self).order@.push(slot),
            final(self).free == old(self).free,
            final(self).nodes@.len() == old(self).nodes@.len(),
            forall|h: int|
                0 <= h < final(self).nodes@.len() ==> (#[trigger] final(self).nodes@[h]).key
                    == old(self).nodes@[h].key,
    {
        reveal(List::linked);
        let ghost before = *self;
        let tail: Option<usize> = self.last_node;
        self.nodes[slot].next = None;
        self.nodes[slot].prev = tail;
        match tail {
            Some(t) => {
                assert(t == before.order@[before.order@.len() - 1]);
                self.nodes[t].next = Some(slot);
            },
            None => {
                self.first_node = Some(slot);
            },
        }
        self.last_node = Some(slot);
        self.order = Ghost(before.order@.push(slot));
        proof {
            let order = self.order@;
            let n = before.order@.len() as int;
            assert forall|p: int| 0 <= p < order.len() implies (#[trigger] order[p])
                < self.nodes@.len() by {
                if p < n {
                    assert(order[p] == before.order@[p]);
                }
            }
            assert forall|i: int, j: int|
                0 <= i < order.len() && 0 <= j < order.len() && i != j implies order[i]
                != order[j] by {
                if i < n {
                    assert(order[i] == before.order@[i]);
                }
                if j < n {
                    assert(order[j] == before.order@[j]);
                }
            }
            assert forall|p: int|
                #![trigger order[p]]
                0 <= p < order.len() implies self.nodes@[order[p] as int].prev == (if p == 0 {
                None
            } else {
                Some(order[p - 1])
            }) by {
                if p < n {
                    assert(order[p] == before.order@[p]);
                }
                if p > 0 {
                    assert(order[p - 1] == before.order@[p - 1]);
                }
            }
            assert forall|p: int|
                #![trigger order[p]]
                0 <= p < order.len() implies self.nodes@[order[p] as int].next == (if p + 1
                == order.len() {
                None
            } else {
                Some(order[p + 1])
            }) by {
                if p < n {
                    assert(order[p] == before.order@[p]);
                    if p + 1 < n {
                        assert(order[p + 1] == before.order@[p + 1]);
                    }
                }
            }
        }
    }

    /// Takes the node in `slot` out of the chain of links.
    fn unlink(&mut self, slot: usize) -> (at: Ghost<int>)
        requires
            old(self).linked(),
            old(self).order@.contains(slot),
        ensures
            0 <= at@ < old(self).order@.len(),
            old(self).order@[at@] == slot,
            final(self).linked(),
            final(self).order@ == old(self).order@.remove(at@),
            !final(self).order@.contains(slot),
            final(self).free == old(self).free,
            final(self).nodes@.len() == old(self).nodes@.len(),
            forall|h: int|
                0 <= h < final(self).nodes@.len() ==> (#[trigger] final(self).nodes@[h]).key
                    == old(self).nodes@[h].key,
    {
        reveal(List::linked);
        let ghost before = *self;
        let ghost old_order = before.order@;
        let ghost at: int = old_order.index_of(slot);
        let ghost n: int = old_order.len() as int;
        assert(old_order[at] == slot);
        let prev: Option<usize> = self.nodes[slot].prev;
        let next: Option<usize> = self.nodes[slot].next;
        match prev {
            Some(a) => {
                assert(a == old_order[at - 1]);
                self.nodes[a].next = next;
            },
            None => {
                self.first_node = next;
            },
        }
        let ghost mid = *self;
        match next {
            Some(b) => {
                assert(b == old_order[at + 1]);
                self.nodes[b].prev = prev;
            },
            None => {
                self.last_node = prev;
            },
        }
        self.order = Ghost(old_order.remove(at));
        proof {
            let order = self.order@;
            let nodes = self.nodes@;
            assert(order.len() == n - 1);
            assert forall|p: int| 0 <= p < order.len() implies #[trigger] order[p] == old_order[if p
                < at {
                p
            } else {
                p + 1
            }] by {}
            assert forall|h: int| 0 <= h < nodes.len() implies (#[trigger] nodes[h]).key
                == before.nodes@[h].key && nodes[h].next == (if at > 0 && h == old_order[at - 1] {
                next
            } else {
                before.nodes@[h].next
            }) && nodes[h].prev == (if at + 1 < n && h == old_order[at + 1] {
                prev
            } else {
                before.nodes@[h].prev
            }) by {
                assert(mid.nodes@[h].key == before.nodes@[h].key);
            }
            assert forall|p: int| 0 <= p < order.len() implies (#[trigger] order[p]) < nodes.len()
                && order[p] != slot by {
                let q = if p < at { p } else { p + 1 };
                assert(order[p] == old_order[q]);
            }
            assert forall|i: int, j: int|
                0 <= i < order.len() && 0 <= j < order.len() && i != j implies order[i]
                != order[j] by {
                assert(order[i] == old_order[if i < at { i } else { i + 1 }]);
                assert(order[j] == old_order[if j < at { j } else { j + 1 }]);
            }
            assert forall|p: int|
                #![trigger order[p]]
                0 <= p < order.len() implies nodes[order[p] as int].prev == (if p == 0 {
                None
            } else {
                Some(order[p - 1])
            }) by {
                let q = if p < at { p } else { p + 1 };
                assert(order[p] == old_order[q]);
                if p > 0 {
                    assert(order[p - 1] == old_order[if p - 1 < at { p - 1 } else { p }]);
                }
                if q != at + 1 && at + 1 < n {
                    assert(old_order[q] != old_order[at + 1]);
                }
            }
            assert forall|p: int|
                #![trigger order[p]]
                0 <= p < order.len() implies nodes[order[p] as int].next == (if p + 1
                == order.len() {
                None
            } else {
                Some(order[p + 1])
            }) by {
                let q = if p < at { p } else { p + 1 };
                assert(order[p] == old_order[q]);
                if p + 1 < order.len() {
                    assert(order[p + 1] == old_order[if p + 1 < at { p + 1 } else { p + 2 }]);
                }
                if q != at - 1 && at > 0 {
                    assert(old_order[q] != old_order[at - 1]);
                }
            }
            if order.len() > 0 {
                assert(order[0] == old_order[if 0 < at { 0 } else { 1 }]);
                assert(order[order.len() - 1] == old_order[if n - 2 < at { n - 2 } else { n - 1 }]);
            }
        }
        Ghost(at)
    }

    /// What the links give: no slot occurs twice, and every slot holds a node.
    proof fn lemma_linked(&self)
        requires
            self.linked(),
        ensures
            self.order@.no_duplicates(),
            forall|p: int|
                0 <= p < self.order@.len() ==> (#[trigger] self.order@[p]) < self.nodes@.len(),
    {
        reveal(List::linked);
    }

    /// Puts `key` in front of the list and returns the slot of its node.
    pub fn push_front(&mut self, key: String) -> (slot: usize)
        requires
            old(self).wf(),
        ensures
            final(self).wf(),
            final(self)@ == seq![key@] + old(self)@,
            final(self).slots() == seq![slot] + old(self).slots(),
            final(self).key_at(slot) == key@,
            forall|h: usize|
                old(self).slots().contains(h) ==> final(self).key_at(h) == old(self).key_at(h),
    {
        let slot: usize = self.allocate(key);
        let ghost mid = *self;
        self.link_first(slot);
        proof {
            mid.lemma_linked();
        }
        slot
    }

    /// Puts `key` behind the last key and returns the slot of its node.
    pub fn push_back(&mut self, key: String) -> (slot: usize)
        requires
            old(self).wf(),
        ensures
            final(self).wf(),
            final(self)@ == old(self)@.push(key@),
            final(self).slots() == old(self).slots().push(slot),
            final(self).key_at(slot) == key@,
            forall|h: usize|
                old(self).slots().contains(h) ==> final(self).key_at(h) == old(self).key_at(h),
    {
        let slot: usize = self.allocate(key);
        let ghost mid = *self;
        self.link_last(slot);
        proof {
            mid.lemma_linked();
        }
        slot
    }

    /// Moves the node in `slot` to the front of the list.
    pub fn move_to_front(&mut self, slot: usize)
        requires
            old(self).wf(),
            old(self).slots().contains(slot),
        ensures
            final(self).wf(),
            final(self).slots() == moved_to_front(
                old(self).slots(),
                old(self).slots().index_of(slot),
            ),
            final(self)@ == moved_to_front(old(self)@, old(self).slots().index_of(slot)),
            forall|h: usize|
                old(self).slots().contains(h) ==> final(self).key_at(h) == old(self).key_at(h),
    {
        let ghost before = *self;
        proof {
            before.lemma_linked();
        }
        let _ = self.unlink(slot);
        self.link_first(slot);
    }

    /// Takes the last key off the list, if there is one.
    pub fn pop_back(&mut self) -> (r: Option<String>)
        requires
            old(self).wf(),
        ensures
            final(self).wf(),
            match r {
                Some(key) => old(self)@.len() > 0 && key@ == old(self)@.last() && final(self)@
                    == old(self)@.drop_last() && final(self).slots() == old(
                    self,
                ).slots().drop_last(),
                None => old(self)@.len() == 0 && final(self)@ == old(self)@ && final(self).slots()
                    == old(self).slots(),
            },
            forall|h: usize|
                final(self).slots().contains(h) ==> final(self).key_at(h) == old(self).key_at(h),
    {
        proof {
            reveal(List::linked);
        }
        let slot: usize = match self.last_node {
            None => {
                return None;
            },
            Some(slot) => slot,
        };
        let _ = self.unlink(slot);
        let mut key: String = String::new();
        core::mem::swap(&mut self.nodes[slot].key, &mut key);
        self.free.push(slot);
        Some(key)
    }

    /// Finds the first node that holds `value`.
    fn find_slot(&self, value: &str) -> (r: (Option<usize>, Ghost<int>))
        requires
            self.wf(),
        ensures
            match r.0 {
                Some(slot) => self@.index_of_first(value@) == Some(r.1@) && 0 <= r.1@
                    < self.order@.len() && self.order@[r.1@] == slot,
                None => self@.index_of_first(value@) is None,
            },
    {
        proof {
            reveal(List::linked);
        }
        let ghost n = self.order@.len() as int;
        let mut cur: Option<usize> = self.first_node;
        let ghost mut p: int = 0;
        loop
            invariant
                self.wf(),
                n == self.order@.len(),
                0 <= p <= n,
                cur == (if p < n {
                    Some(self.order@[p])
                } else {
                    None
                }),
                forall|j: int| 0 <= j < p ==> self@[j] != value@,
            decreases n - p,
        {
            proof {
                reveal(List::linked);
                self@.index_of_first_ensures(value@);
            }
            match cur {
                None => {
                    return (None, Ghost(p));
                },
                Some(slot) => {
                    if str_eq(self.nodes[slot].key.as_str(), value) {
                        assert(self@[p] == value@);
                        return (Some(slot), Ghost(p));
                    }
                    cur = self.nodes[slot].next;
                    proof {
                        p = p + 1;
                    }
                },
            }
        }
    }

    /// Puts `data` in front of the list, and hands the list back.
    pub fn insert_at_the_beginning(&mut self, data: &str) -> (r: &Self)
        requires
            old(self).wf(),
        ensures
            final(self).wf(),
            final(self)@ == seq![data@] + old(self)@,
            *r == *final(self),
    {
        let _ = self.push_front(data.to_owned());
        self
    }

    /// Puts `data` behind the last key of the list, and hands the list back.
    pub fn insert_at_the_end(&mut self, data: &str) -> (r: &Self)
        requires
            old(self).wf(),
        ensures
            final(self).wf(),
            final(self)@ == old(self)@.push(data@),
            *r == *final(self),
    {
        let _ = self.push_back(data.to_owned());
        self
    }

    /// Puts `data` in front of the list and drops the key that is then last,
    /// unless that key is `data` itself.
    pub fn insert_at_beginning_and_drop_last_node(&mut self, data: &str)
        requires
            old(self).wf(),
        ensures
            final(self).wf(),
            final(self)@ == (if (seq![data@] + old(self)@).last() == data@ {
                seq![data@] + old(self)@
            } else {
                (seq![data@] + old(self)@).drop_last()
            }),
    {
        let _ = self.push_front(data.to_owned());
        proof {
            reveal(List::linked);
        }
        let last: usize = match self.last_node {
            None => {
                return ;
            },
            Some(slot) => slot,
        };
        if !str_eq(self.nodes[last].key.as_str(), data) {
            let _ = self.pop_back();
        }
    }

    /// The first key of the list.
    pub fn first_value(&self) -> (r: Option<String>)
        requires
            self.wf(),
        ensures
            match r {
                Some(key) => self@.len() > 0 && key@ == self@.first(),
                None => self@.len() == 0,
            },
    {
        proof {
            reveal(List::linked);
        }
        match self.first_node {
            None => None,
            Some(slot) => Some(self.nodes[slot].key.clone()),
        }
    }

    /// The last key of the list.
    pub fn last_value(&self) -> (r: Option<String>)
        requires
            self.wf(),
        ensures
            match r {
                Some(key) => self@.len() > 0 && key@ == self@.last(),
                None => self@.len() == 0,
            },
    {
        proof {
            reveal(List::linked);
        }
        match self.last_node {
            None => None,
            Some(slot) => Some(self.nodes[slot].key.clone()),
        }
    }

    /// The key that follows the first occurrence of `value`.
    pub fn find_next_value(&self, value: &str) -> (r: Option<String>)
        requires
            self.wf(),
        ensures
            match r {
                Some(key) => successor(self@, value@) == Some(key@),
                None => successor(self@, value@) is None,
            },
    {
        let found = self.find_slot(value);
        proof {
            reveal(List::linked);
        }
        match found.0 {
            None => None,
            Some(slot) => match self.nodes[slot].next {
                None => None,
                Some(next) => Some(self.nodes[next].key.clone()),
            },
        }
    }

    /// Moves the first occurrence of `value` to the front of the list, and
    /// tells whether there is one.
    pub fn find_and_move_first_place(&mut self, value: &str) -> (r: bool)
        requires
            old(self).wf(),
        ensures
            final(self).wf(),
            r == old(self)@.contains(value@),
            final(self)@ == promoted(old(self)@, value@),
    {
        let found = self.find_slot(value);
        proof {
            self@.index_of_first_ensures(value@);
            self.lemma_linked();
        }
        match found.0 {
            None => false,
            Some(slot) => {
                self.move_to_front(slot);
                true
            },
        }
    }
}

impl Default for List {
    fn default() -> (r: List)
        ensures
            r.wf(),
            r@ == Seq::<Seq<char>>::empty(),
    {
        List::new()
    }
}

} // verus!
