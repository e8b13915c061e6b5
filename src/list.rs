use vstd::prelude::*;

use crate::render::{bracketed, render_list};

verus! {

/// Why an indexed operation was refused.
#[derive(Clone, Copy, Debug, PartialEq, Eq, Structural)]
pub enum ListError {
    /// The index was not a position of the list (it was at least its length).
    IndexOutOfBounds,
}

/// One slot's occupant: an element with the slot numbers of its neighbours.
struct Node<T> {
    value: T,
    prev: Option<usize>,
    next: Option<usize>,
}

/// A doubly linked list. Nodes are kept in `slots`; a node refers to its
/// neighbours by slot number. Slots vacated by `remove` are recorded in
/// `free` and reused by later pushes.
pub struct DoublyLinkedList<T> {
    slots: Vec<Option<Node<T>>>,
    free: Vec<usize>,
    head: Option<usize>,
    tail: Option<usize>,
    /// The slot numbers of the nodes, from head to tail.
    order: Ghost<Seq<usize>>,
}

/// The link a node at position `i` of `ord` must hold to its predecessor.
pub open spec fn prev_of(ord: Seq<usize>, i: int) -> Option<usize> {
    if i == 0 {
        None
    } else {
        Some(ord[i - 1])
    }
}

/// The link a node at position `i` of `ord` must hold to its successor.
pub open spec fn next_of(ord: Seq<usize>, i: int) -> Option<usize> {
    if i + 1 == ord.len() {
        None
    } else {
        Some(ord[i + 1])
    }
}

/// The first slot of a non-empty order, `None` for an empty one.
pub open spec fn first_of(ord: Seq<usize>) -> Option<usize> {
    if ord.len() == 0 {
        None
    } else {
        Some(ord[0])
    }
}

/// The last slot of a non-empty order, `None` for an empty one.
pub open spec fn last_of(ord: Seq<usize>) -> Option<usize> {
    if ord.len() == 0 {
        None
    } else {
        Some(ord.last())
    }
}

/// `n` with its successor link replaced by `v`.
spec fn with_next<T>(n: Node<T>, v: Option<usize>) -> Node<T> {
    Node { value: n.value, prev: n.prev, next: v }
}

/// `n` with its predecessor link replaced by `v`.
spec fn with_prev<T>(n: Node<T>, v: Option<usize>) -> Node<T> {
    Node { value: n.value, prev: v, next: n.next }
}

impl<T> View for DoublyLinkedList<T> {
    type V = Seq<T>;

    /// The elements from head to tail.
    closed spec fn view(&self) -> Seq<T> {
        self.order@.map_values(|s: usize| self.slots@[s as int]->Some_0.value)
    }
}

impl<T> DoublyLinkedList<T> {
    /// Whether slot `s` holds a node.
    pub closed spec fn occupied(&self, s: usize) -> bool {
        s < self.slots@.len() && self.slots@[s as int] is Some
    }

    /// The link from the node in slot `s` to its predecessor.
    pub closed spec fn prev_link(&self, s: usize) -> Option<usize> {
        self.slots@[s as int]->Some_0.prev
    }

    /// The link from the node in slot `s` to its successor.
    pub closed spec fn next_link(&self, s: usize) -> Option<usize> {
        self.slots@[s as int]->Some_0.next
    }

    /// The element held by the node in slot `s`.
    pub closed spec fn value_at(&self, s: usize) -> T {
        self.slots@[s as int]->Some_0.value
    }

    /// The first node's slot, `None` when the list is empty.
    pub closed spec fn head_slot(&self) -> Option<usize> {
        self.head
    }

    /// The last node's slot, `None` when the list is empty.
    pub closed spec fn tail_slot(&self) -> Option<usize> {
        self.tail
    }

    /// The structural invariant: the nodes in `order` occupy distinct slots,
    /// each links to its neighbours in `order` both ways, `head` and `tail`
    /// name the ends, and every slot in `free` is vacant and listed once.
    pub closed spec fn wf(&self) -> bool {
        let ord = self.order@;
        &&& ord.no_duplicates()
        &&& forall|i: int| 0 <= i < ord.len() ==> self.occupied(#[trigger] ord[i])
        &&& forall|i: int|
            0 <= i < ord.len() ==> self.prev_link(#[trigger] ord[i]) == prev_of(ord, i)
                && self.next_link(ord[i]) == next_of(ord, i)
        &&& self.head == first_of(ord)
        &&& self.tail == last_of(ord)
        &&& self.free@.no_duplicates()
        &&& forall|j: int|
            0 <= j < self.free@.len() ==> #[trigger] self.free@[j] < self.slots@.len()
                && self.slots@[self.free@[j] as int] is None
        &&& ord.len() + self.free@.len() <= self.slots.len()
    }

    /// The slots visited by following successor links from `from`, stopping
    /// at a missing link or after `steps` nodes.
    pub closed spec fn walk_forward(&self, from: Option<usize>, steps: nat) -> Seq<usize>
        decreases steps,
    {
        if steps == 0 {
            Seq::empty()
        } else {
            match from {
                None => Seq::empty(),
                Some(s) => seq![s] + self.walk_forward(self.next_link(s), (steps - 1) as nat),
            }
        }
    }

    /// The slots visited by following predecessor links from `from`, stopping
    /// at a missing link or after `steps` nodes.
    pub closed spec fn walk_backward(&self, from: Option<usize>, steps: nat) -> Seq<usize>
        decreases steps,
    {
        if steps == 0 {
            Seq::empty()
        } else {
            match from {
                None => Seq::empty(),
                Some(s) => seq![s] + self.walk_backward(self.prev_link(s), (steps - 1) as nat),
            }
        }
    }

    /// The elements met walking forward from the head, taking at most one
    /// step per slot of the arena.
    pub open spec fn forward_values(&self) -> Seq<T> {
        self.walk_forward(self.head_slot(), self.arena_size()).map_values(|s: usize| self.value_at(s))
    }

    /// The elements met walking backward from the tail, taking at most one
    /// step per slot of the arena.
    pub open spec fn backward_values(&self) -> Seq<T> {
        self.walk_backward(self.tail_slot(), self.arena_size()).map_values(|s: usize| self.value_at(s))
    }

    /// The number of slots in the arena.
    pub closed spec fn arena_size(&self) -> nat {
        self.slots@.len()
    }

    proof fn lemma_walk_forward_from(&self, i: int, steps: nat)
        requires
            self.wf(),
            0 <= i <= self.order@.len(),
            steps >= self.order@.len() - i,
        ensures
            self.walk_forward(
                if i < self.order@.len() { Some(self.order@[i]) } else { None },
                steps,
            ) == self.order@.subrange(i, self.order@.len() as int),
        decreases self.order@.len() - i,
    {
        let ord = self.order@;
        if i < ord.len() {
            self.lemma_walk_forward_from(i + 1, (steps - 1) as nat);
            assert(self.next_link(ord[i]) == next_of(ord, i));
            assert(seq![ord[i]] + ord.subrange(i + 1, ord.len() as int) =~= ord.subrange(i, ord.len() as int));
        } else {
            assert(ord.subrange(i, ord.len() as int) =~= Seq::<usize>::empty());
        }
    }

    proof fn lemma_walk_backward_from(&self, i: int, steps: nat)
        requires
            self.wf(),
            -1 <= i < self.order@.len(),
            steps >= i + 1,
        ensures
            self.walk_backward(
                if i >= 0 { Some(self.order@[i]) } else { None },
                steps,
            ) == self.order@.subrange(0, i + 1).reverse(),
        decreases i + 1,
    {
        let ord = self.order@;
        if i >= 0 {
            self.lemma_walk_backward_from(i - 1, (steps - 1) as nat);
            assert(self.prev_link(ord[i]) == prev_of(ord, i));
            assert(seq![ord[i]] + ord.subrange(0, i).reverse() =~= ord.subrange(0, i + 1).reverse());
        } else {
            assert(ord.subrange(0, 0).reverse() =~= Seq::<usize>::empty());
        }
    }

    /// In a well-formed list, walking forward from the head meets the
    /// elements in list order, walking backward from the tail meets them in
    /// the reverse order, and either walk takes as many steps as the list's
    /// length.
    pub proof fn lemma_traversals_agree(&self)
        requires
            self.wf(),
        ensures
            self.forward_values() == self@,
            self.backward_values() == self@.reverse(),
            self.walk_forward(self.head_slot(), self.arena_size()).len() == self@.len(),
            self.walk_backward(self.tail_slot(), self.arena_size()).len() == self@.len(),
    {
        let ord = self.order@;
        let n = ord.len() as int;
        self.lemma_walk_forward_from(0, self.arena_size());
        self.lemma_walk_backward_from(n - 1, self.arena_size());
        assert(ord.subrange(0, n) =~= ord);
        assert(self.forward_values() =~= self@);
        assert(self.backward_values() =~= self@.reverse());
    }

    /// An empty list.
    pub fn new() -> (r: Self)
        ensures
            r.wf(),
            r@ == Seq::<T>::empty(),
    {
        let r = DoublyLinkedList {
            slots: Vec::new(),
            free: Vec::new(),
            head: None,
            tail: None,
            order: Ghost(Seq::empty()),
        };
        assert(r@ =~= Seq::<T>::empty());
        r
    }

    /// The node in slot `s`.
    fn node(&self, s: usize) -> (r: &Node<T>)
        requires
            self.occupied(s),
        ensures
            Some(*r) == self.slots@[s as int],
    {
        self.slots[s].as_ref().unwrap()
    }

    /// Sets the successor link of the node in slot `p` to `v`.
    fn set_next(&mut self, p: usize, v: Option<usize>)
        requires
            old(self).occupied(p),
        ensures
            final(self).slots@ == old(self).slots@.update(
                p as int,
                Some(with_next(old(self).slots@[p as int]->Some_0, v)),
            ),
            final(self).free == old(self).free,
            final(self).head == old(self).head,
            final(self).tail == old(self).tail,
            final(self).order == old(self).order,
    {
        let mut n = self.slots[p].take().unwrap();
        n.next = v;
        self.slots[p] = Some(n);
    }

    /// Sets the predecessor link of the node in slot `p` to `v`.
    fn set_prev(&mut self, p: usize, v: Option<usize>)
        requires
            old(self).occupied(p),
        ensures
            final(self).slots@ == old(self).slots@.update(
                p as int,
                Some(with_prev(old(self).slots@[p as int]->Some_0, v)),
            ),
            final(self).free == old(self).free,
            final(self).head == old(self).head,
            final(self).tail == old(self).tail,
            final(self).order == old(self).order,
    {
        let mut n = self.slots[p].take().unwrap();
        n.prev = v;
        self.slots[p] = Some(n);
    }

    /// The slot of the node at position `idx`, found by walking the links
    /// from the head; `None` when the list has no such position.
    fn locate(&self, idx: usize) -> (r: Option<usize>)
        requires
            self.wf(),
        ensures
            idx < self@.len() ==> r == Some(self.order@[idx as int]),
            idx >= self@.len() ==> r is None,
    {
        let ghost ord = self.order@;
        let mut pos: usize = 0;
        let mut cur = self.head;
        loop
            invariant
                ord == self.order@,
                ord.len() == self@.len(),
                ord.len() <= self.slots.len(),
                forall|i: int| 0 <= i < ord.len() ==> self.occupied(#[trigger] ord[i]),
                forall|i: int| 0 <= i < ord.len() ==> self.next_link(#[trigger] ord[i]) == next_of(ord, i),
                pos <= idx,
                pos <= ord.len(),
                cur == (if pos < ord.len() { Some(ord[pos as int]) } else { None::<usize> }),
            decreases ord.len() - pos,
        {
            match cur {
                None => {
                    return None;
                },
                Some(s) => {
                    if pos == idx {
                        return Some(s);
                    }
                    cur = self.node(s).next;
                    pos = pos + 1;
                },
            }
        }
    }

    /// What `remove` leaves behind once the node at position `idx` is
    /// unlinked and its slot vacated: a well-formed list without that element.
    proof fn lemma_unlinked(old_list: Self, new_list: Self, idx: int)
        requires
            old_list.wf(),
            0 <= idx < old_list.order@.len(),
            new_list.order@ == old_list.order@.remove(idx),
            new_list.slots@.len() == old_list.slots@.len(),
            new_list.slots@[old_list.order@[idx] as int] is None,
            forall|k: usize|
                k < old_list.slots@.len() && k != old_list.order@[idx] && Some(k) != prev_of(old_list.order@, idx) && Some(k)
                    != next_of(old_list.order@, idx) ==> #[trigger] new_list.slots@[k as int]
                    == old_list.slots@[k as int],
            prev_of(old_list.order@, idx) matches Some(p) ==> new_list.slots@[p as int] == Some(
                with_next(old_list.slots@[p as int]->Some_0, next_of(old_list.order@, idx)),
            ),
            next_of(old_list.order@, idx) matches Some(n) ==> new_list.slots@[n as int] == Some(
                with_prev(old_list.slots@[n as int]->Some_0, prev_of(old_list.order@, idx)),
            ),
            new_list.head == (if idx == 0 {
                next_of(old_list.order@, idx)
            } else {
                old_list.head
            }),
            new_list.tail == (if idx + 1 == old_list.order@.len() {
                prev_of(old_list.order@, idx)
            } else {
                old_list.tail
            }),
            new_list.free@ == old_list.free@.push(old_list.order@[idx]),
        ensures
            new_list.wf(),
            new_list@ == old_list@.remove(idx),
    {
        let ord = old_list.order@;
        let nord = new_list.order@;
        let s = ord[idx];
        assert forall|j: int| 0 <= j < nord.len() implies #[trigger] nord[j] == (if j < idx {
            ord[j]
        } else {
            ord[j + 1]
        }) && nord[j] != s by {}
        assert forall|j: int| 0 <= j < nord.len() implies new_list.occupied(#[trigger] nord[j])
            && new_list.prev_link(nord[j]) == prev_of(nord, j) && new_list.next_link(nord[j])
            == next_of(nord, j) && new_list.value_at(nord[j]) == old_list.value_at(nord[j]) by {
            let k = if j < idx {
                j
            } else {
                j + 1
            };
            assert(old_list.occupied(ord[k]));
            assert(old_list.prev_link(ord[k]) == prev_of(ord, k));
            if k + 1 == idx {
                assert(ord[k] == ord[idx - 1]);
            } else if k == idx + 1 {
                assert(ord[k] == ord[idx + 1]);
            } else {
                if idx > 0 {
                    assert(ord[k] != ord[idx - 1]);
                }
                if idx + 1 < ord.len() {
                    assert(ord[k] != ord[idx + 1]);
                }
                assert(new_list.slots@[nord[j] as int] == old_list.slots@[nord[j] as int]);
            }
        }
        assert forall|a: int, b: int|
            0 <= a < nord.len() && 0 <= b < nord.len() && a != b implies nord[a] != nord[b] by {
            let ka = if a < idx {
                a
            } else {
                a + 1
            };
            let kb = if b < idx {
                b
            } else {
                b + 1
            };
            assert(nord[a] == ord[ka]);
            assert(nord[b] == ord[kb]);
        }
        let free = old_list.free@;
        assert forall|j: int| 0 <= j < free.len() implies #[trigger] free[j] != s && Some(free[j])
            != prev_of(ord, idx) && Some(free[j]) != next_of(ord, idx) by {
            assert(old_list.occupied(ord[idx]));
            if idx > 0 {
                assert(old_list.occupied(ord[idx - 1]));
            }
            if idx + 1 < ord.len() {
                assert(old_list.occupied(ord[idx + 1]));
            }
        }
        assert forall|j: int| 0 <= j < new_list.free@.len() implies #[trigger] new_list.free@[j]
            < new_list.slots@.len() && new_list.slots@[new_list.free@[j] as int] is None by {
            if j < free.len() {
                assert(new_list.free@[j] == free[j]);
                assert(new_list.slots@[free[j] as int] == old_list.slots@[free[j] as int]);
            }
        }
        assert(new_list@ =~= old_list@.remove(idx));
    }

    /// Appends `value` after the last element.
    pub fn push(&mut self, value: T)
        requires
            old(self).wf(),
        ensures
            final(self).wf(),
            final(self)@ == old(self)@.push(value),
    {
        let ghost ord = self.order@;
        let ghost old_view = self@;
        let last = self.tail;
        let node = Node { value, prev: last, next: None };
        let s: usize;
        match self.free.pop() {
            Some(f) => {
                s = f;
                self.slots[f] = Some(node);
            },
            None => {
                s = self.slots.len();
                self.slots.push(Some(node));
            },
        }
        match last {
            Some(t) => self.set_next(t, Some(s)),
            None => self.head = Some(s),
        }
        self.tail = Some(s);
        self.order = Ghost(ord.push(s));
        proof {
            assert(self@ =~= old_view.push(value));
        }
    }

    /// Removes the element at position `idx` and hands it back; the list is
    /// left unchanged when `idx` is not a position of it.
    pub fn remove(&mut self, idx: usize) -> (r: Result<T, ListError>)
        requires
            old(self).wf(),
        ensures
            final(self).wf(),
            idx < old(self)@.len() ==> r == Ok::<T, ListError>(old(self)@[idx as int])
                && final(self)@ == old(self)@.remove(idx as int),
            idx >= old(self)@.len() ==> r == Err::<T, ListError>(ListError::IndexOutOfBounds)
                && final(self)@ == old(self)@,
    {
        let s = match self.locate(idx) {
            None => {
                return Err(ListError::IndexOutOfBounds);
            },
            Some(s) => s,
        };
        let ghost ord = self.order@;
        let ghost old_list = *self;
        let prev = self.node(s).prev;
        let next = self.node(s).next;
        proof {
            assert(self.occupied(ord[idx as int]));
            assert(self.prev_link(ord[idx as int]) == prev_of(ord, idx as int));
            if idx > 0 {
                assert(self.occupied(ord[idx - 1]));
                assert(ord[idx - 1] != s);
            }
            if idx + 1 < ord.len() {
                assert(self.occupied(ord[idx + 1]));
                assert(ord[idx + 1] != s);
            }
        }
        match prev {
            Some(p) => self.set_next(p, next),
            None => self.head = next,
        }
        match next {
            Some(n) => self.set_prev(n, prev),
            None => self.tail = prev,
        }
        let node = self.slots[s].take().unwrap();
        self.free.push(s);
        self.order = Ghost(ord.remove(idx as int));
        proof {
            Self::lemma_unlinked(old_list, *self, idx as int);
        }
        Ok(node.value)
    }

    /// The number of elements, counted by walking the links from the head.
    pub fn len(&self) -> (r: usize)
        requires
            self.wf(),
        ensures
            r == self@.len(),
    {
        let ghost ord = self.order@;
        let mut count: usize = 0;
        let mut cur = self.head;
        while cur.is_some()
            invariant
                ord == self.order@,
                ord.len() <= self.slots.len(),
                forall|i: int| 0 <= i < ord.len() ==> self.occupied(#[trigger] ord[i]),
                forall|i: int| 0 <= i < ord.len() ==> self.next_link(#[trigger] ord[i]) == next_of(ord, i),
                count <= ord.len(),
                cur == (if count < ord.len() { Some(ord[count as int]) } else { None::<usize> }),
            decreases ord.len() - count,
        {
            let s = cur.unwrap();
            cur = self.node(s).next;
            count = count + 1;
        }
        count
    }
}

impl<T: Clone> DoublyLinkedList<T> {
    /// A copy of the element at position `idx`.
    pub fn get(&self, idx: usize) -> (r: Result<T, ListError>)
        requires
            self.wf(),
        ensures
            idx < self@.len() ==> (r matches Ok(v) && cloned(self@[idx as int], v)),
            idx >= self@.len() ==> r == Err::<T, ListError>(ListError::IndexOutOfBounds),
    {
        match self.locate(idx) {
            None => Err(ListError::IndexOutOfBounds),
            Some(s) => Ok(self.node(s).value.clone()),
        }
    }
}

impl<T: std::fmt::Debug> DoublyLinkedList<T> {
    /// The elements from head to tail, each written by its `Debug` impl,
    /// comma-and-space separated and enclosed in brackets: `[1, 2, 3]`.
    pub fn debug_string(&self) -> (r: String)
        requires
            self.wf(),
        ensures
            exists|parts: Seq<Seq<char>>| parts.len() == self@.len() && r@ == bracketed(parts),
    {
        let ghost ord = self.order@;
        let mut parts: Vec<String> = Vec::new();
        let mut cur = self.head;
        while cur.is_some()
            invariant
                ord == self.order@,
                ord.len() == self@.len(),
                ord.len() <= self.slots.len(),
                forall|i: int| 0 <= i < ord.len() ==> self.occupied(#[trigger] ord[i]),
                forall|i: int| 0 <= i < ord.len() ==> self.next_link(#[trigger] ord[i]) == next_of(ord, i),
                parts.len() <= ord.len(),
                cur == (if parts.len() < ord.len() { Some(ord[parts.len() as int]) } else { None::<usize> }),
            decreases ord.len() - parts.len(),
        {
            let s = cur.unwrap();
            let n = self.node(s);
            parts.push(debug_text(&n.value));
            cur = n.next;
        }
        render_list(&parts)
    }
}

/// Relies on `format!` with `{:?}`: the text that the element type's `Debug`
/// impl writes for `v`. Nothing is assumed of that text.
#[verifier::external_body]
fn debug_text<T: std::fmt::Debug>(v: &T) -> String {
    format!("{:?}", v)
}

} // verus!
