//! A doubly-linked list whose nodes live in an arena. Each push hands back
//! the node's handle, its index in the arena, which stays valid until the
//! node leaves the list; `erase` unlinks a node by its handle in constant
//! time. Freed nodes are reused by later pushes.
use vstd::prelude::*;

verus! {

/// A node of the list: its value while it is in use, and its neighbours.
pub struct Node<T> {
    pub(crate) val: Option<T>,
    pub(crate) next: Option<usize>,
    pub(crate) prev: Option<usize>,
}

/// A doubly-linked list of `T`.
pub struct Dlinklist<T> {
    nodes: Vec<Node<T>>,
    free: Vec<usize>,
    head: Option<usize>,
    tail: Option<usize>,
    size: usize,
    order: Ghost<Seq<usize>>,
}

/// The neighbour at position `i` of `o`, if there is one.
pub open spec fn at(o: Seq<usize>, i: int) -> Option<usize> {
    if 0 <= i < o.len() {
        Some(o[i])
    } else {
        None
    }
}

impl<T> Dlinklist<T> {
    /// Handles of the nodes, front to back.
    pub closed spec fn handles(&self) -> Seq<usize> {
        self.order@
    }

    /// The values, front to back.
    pub closed spec fn view(&self) -> Seq<T> {
        self.order@.map_values(|i: usize| self.nodes@[i as int].val->Some_0)
    }

    /// Internal consistency of the list.
    pub closed spec fn wf(&self) -> bool {
        let o = self.order@;
        &&& self.size == o.len()
        &&& self.size + self.free@.len() == self.nodes@.len()
        &&& forall|i: int|
            #![trigger o[i]]
            0 <= i < o.len() ==> {
                &&& o[i] < self.nodes@.len()
                &&& self.nodes@[o[i] as int].val is Some
                &&& self.nodes@[o[i] as int].prev == at(o, i - 1)
                &&& self.nodes@[o[i] as int].next == at(o, i + 1)
            }
        &&& forall|i: int, j: int| 0 <= i < o.len() && 0 <= j < o.len() && i != j ==> #[trigger] o[i] != #[trigger] o[j]
        &&& self.head == at(o, 0)
        &&& self.tail == at(o, o.len() - 1)
        &&& forall|j: int|
            #![trigger self.free@[j]]
            0 <= j < self.free@.len() ==> self.free@[j] < self.nodes@.len() && self.nodes@[self.free@[j] as int].val is None
        &&& forall|j1: int, j2: int|
            0 <= j1 < self.free@.len() && 0 <= j2 < self.free@.len() && j1 != j2 ==> #[trigger] self.free@[j1]
                != #[trigger] self.free@[j2]
    }

    /// Each value has its own handle.
    pub proof fn lemma_handles(&self)
        requires
            self.wf(),
        ensures
            self.handles().len() == self.view().len(),
            forall|p: int, q: int|
                0 <= p < self.handles().len() && 0 <= q < self.handles().len() && p != q ==> #[trigger] self.handles()[p]
                    != #[trigger] self.handles()[q],
    {
    }

    /// An empty list.
    pub fn new() -> (r: Dlinklist<T>)
        ensures
            r.wf(),
            r.view() == Seq::<T>::empty(),
    {
        let r = Dlinklist { nodes: Vec::new(), free: Vec::new(), head: None, tail: None, size: 0, order: Ghost(Seq::empty()) };
        proof {
            assert(r.view() =~= Seq::<T>::empty());
        }
        r
    }

    /// Number of values.
    pub fn size(&self) -> (r: usize)
        requires
            self.wf(),
        ensures
            r == self.view().len(),
    {
        self.size
    }

    /// A free node for `val`: a freed one when there is one, else a new one.
    fn take_node(&mut self, val: T, prev: Option<usize>, next: Option<usize>) -> (r: usize)
        requires
            old(self).wf(),
        ensures
            final(self).order@ == old(self).order@,
            final(self).head == old(self).head,
            final(self).tail == old(self).tail,
            final(self).size == old(self).size,
            final(self).size + final(self).free@.len() + 1 == final(self).nodes@.len(),
            r < final(self).nodes@.len(),
            final(self).nodes@[r as int].val == Some(val),
            final(self).nodes@[r as int].next == next,
            final(self).nodes@[r as int].prev == prev,
            !old(self).order@.contains(r),
            forall|x: int| 0 <= x < old(self).nodes@.len() && x != r ==> final(self).nodes@[x] == old(self).nodes@[x],
            old(self).nodes@.len() <= final(self).nodes@.len(),
            forall|j: int|
                #![trigger final(self).free@[j]]
                0 <= j < final(self).free@.len() ==> final(self).free@[j] < final(self).nodes@.len()
                    && final(self).free@[j] != r && final(self).nodes@[final(self).free@[j] as int].val is None,
            forall|j1: int, j2: int|
                0 <= j1 < final(self).free@.len() && 0 <= j2 < final(self).free@.len() && j1 != j2 ==> #[trigger] final(self).free@[j1]
                    != #[trigger] final(self).free@[j2],
    {
        let ghost o = self.order@;
        match self.free.pop() {
            Some(i) => {
                proof {
                    assert(old(self).free@[old(self).free@.len() - 1] == i);
                    if o.contains(i) {
                        let k = choose|k: int| 0 <= k < o.len() && o[k] == i;
                        assert(o[k] == i);
                    }
                    assert forall|j: int| 0 <= j < self.free@.len() implies self.free@[j] != i by {
                        assert(old(self).free@[j] == self.free@[j]);
                    }
                }
                self.nodes.set(i, Node { val: Some(val), next, prev });
                proof {
                    assert forall|j: int| 0 <= j < self.free@.len() implies #[trigger] self.free@[j] < self.nodes@.len()
                        && self.free@[j] != i && self.nodes@[self.free@[j] as int].val is None by {
                        assert(old(self).free@[j] == self.free@[j]);
                    }
                    assert forall|j1: int, j2: int|
                        0 <= j1 < self.free@.len() && 0 <= j2 < self.free@.len() && j1 != j2 implies #[trigger] self.free@[j1]
                        != #[trigger] self.free@[j2] by {
                        assert(old(self).free@[j1] == self.free@[j1]);
                        assert(old(self).free@[j2] == self.free@[j2]);
                    }
                }
                i
            },
            None => {
                proof {
                    if o.contains(self.nodes@.len() as usize) {
                        let k = choose|k: int| 0 <= k < o.len() && o[k] == self.nodes@.len() as usize;
                        assert(o[k] == self.nodes@.len() as usize);
                    }
                }
                self.nodes.push(Node { val: Some(val), next, prev });
                self.nodes.len() - 1
            },
        }
    }
}

impl<T> Dlinklist<T> {
    fn set_next(&mut self, i: usize, n: Option<usize>)
        requires
            i < old(self).nodes@.len(),
        ensures
            final(self).nodes@.len() == old(self).nodes@.len(),
            forall|x: int| 0 <= x < old(self).nodes@.len() && x != i ==> final(self).nodes@[x] == old(self).nodes@[x],
            final(self).nodes@[i as int].val == old(self).nodes@[i as int].val,
            final(self).nodes@[i as int].prev == old(self).nodes@[i as int].prev,
            final(self).nodes@[i as int].next == n,
            final(self).free == old(self).free,
            final(self).order == old(self).order,
            final(self).head == old(self).head,
            final(self).tail == old(self).tail,
            final(self).size == old(self).size,
    {
        self.nodes[i].next = n;
    }

    fn set_prev(&mut self, i: usize, n: Option<usize>)
        requires
            i < old(self).nodes@.len(),
        ensures
            final(self).nodes@.len() == old(self).nodes@.len(),
            forall|x: int| 0 <= x < old(self).nodes@.len() && x != i ==> final(self).nodes@[x] == old(self).nodes@[x],
            final(self).nodes@[i as int].val == old(self).nodes@[i as int].val,
            final(self).nodes@[i as int].next == old(self).nodes@[i as int].next,
            final(self).nodes@[i as int].prev == n,
            final(self).free == old(self).free,
            final(self).order == old(self).order,
            final(self).head == old(self).head,
            final(self).tail == old(self).tail,
            final(self).size == old(self).size,
    {
        self.nodes[i].prev = n;
    }

    /// Adds `val` at the front; returns its handle.
    #[verifier::spinoff_prover]
    #[verifier::rlimit(100)]
    pub fn push_front(&mut self, val: T) -> (r: usize)
        requires
            old(self).wf(),
        ensures
            final(self).wf(),
            final(self).view() == seq![val] + old(self).view(),
            final(self).handles() == seq![r] + old(self).handles(),
    {
        let ghost o = self.order@;
        let ghost old_nodes = self.nodes@;
        let i = self.take_node(val, None, self.head);
        let ghost mid = self.nodes@;
        match self.head {
            Some(h0) => {
                proof {
                    assert(o[0] == h0);
                }
                self.set_prev(h0, Some(i));
            },
            None => {
                self.tail = Some(i);
            },
        }
        self.head = Some(i);
        self.size = self.nodes.len() - self.free.len();
        proof {
            let o2 = seq![i] + o;
            self.order@ = o2;
            assert forall|k: int| 0 <= k < o2.len() implies {
                &&& #[trigger] o2[k] < self.nodes@.len()
                &&& self.nodes@[o2[k] as int].val is Some
                &&& self.nodes@[o2[k] as int].prev == at(o2, k - 1)
                &&& self.nodes@[o2[k] as int].next == at(o2, k + 1)
            } by {
                if k > 0 {
                    assert(o2[k] == o[k - 1]);
                    assert(o[k - 1] != i);
                    assert(old_nodes[o[k - 1] as int] == mid[o[k - 1] as int]);
                }
            }
            assert forall|a: int, b: int| 0 <= a < o2.len() && 0 <= b < o2.len() && a != b implies #[trigger] o2[a]
                != #[trigger] o2[b] by {
                if a > 0 && b > 0 {
                    assert(o2[a] == o[a - 1] && o2[b] == o[b - 1]);
                } else if a > 0 {
                    assert(o2[a] == o[a - 1]);
                    assert(o.contains(o[a - 1]));
                } else if b > 0 {
                    assert(o2[b] == o[b - 1]);
                    assert(o.contains(o[b - 1]));
                }
            }
            assert forall|j: int| 0 <= j < self.free@.len() implies #[trigger] self.free@[j] < self.nodes@.len()
                && self.nodes@[self.free@[j] as int].val is None by {}
            assert(self.view() =~= seq![val] + old(self).view()) by {
                assert forall|k: int| 0 <= k < o.len() implies self.nodes@[o[k] as int].val == old_nodes[o[k] as int].val by {
                    assert(o[k] != i);
                }
            }
        }
        i
    }

    /// Adds `val` at the back; returns its handle.
    #[verifier::spinoff_prover]
    #[verifier::rlimit(100)]
    pub fn push_back(&mut self, val: T) -> (r: usize)
        requires
            old(self).wf(),
        ensures
            final(self).wf(),
            final(self).view() == old(self).view().push(val),
            final(self).handles() == old(self).handles().push(r),
    {
        let ghost o = self.order@;
        let ghost old_nodes = self.nodes@;
        let i = self.take_node(val, self.tail, None);
        let ghost mid = self.nodes@;
        match self.tail {
            Some(t0) => {
                proof {
                    assert(o[o.len() - 1] == t0);
                }
                self.set_next(t0, Some(i));
            },
            None => {
                self.head = Some(i);
            },
        }
        self.tail = Some(i);
        self.size = self.nodes.len() - self.free.len();
        proof {
            let o2 = o.push(i);
            self.order@ = o2;
            assert forall|k: int| 0 <= k < o2.len() implies {
                &&& #[trigger] o2[k] < self.nodes@.len()
                &&& self.nodes@[o2[k] as int].val is Some
                &&& self.nodes@[o2[k] as int].prev == at(o2, k - 1)
                &&& self.nodes@[o2[k] as int].next == at(o2, k + 1)
            } by {
                if k < o.len() {
                    assert(o2[k] == o[k]);
                    assert(o[k] != i);
                    assert(old_nodes[o[k] as int] == mid[o[k] as int]);
                }
            }
            assert forall|a: int, b: int| 0 <= a < o2.len() && 0 <= b < o2.len() && a != b implies #[trigger] o2[a]
                != #[trigger] o2[b] by {
                if a < o.len() {
                    assert(o.contains(o[a]));
                }
                if b < o.len() {
                    assert(o.contains(o[b]));
                }
            }
            assert forall|j: int| 0 <= j < self.free@.len() implies #[trigger] self.free@[j] < self.nodes@.len()
                && self.nodes@[self.free@[j] as int].val is None by {}
            assert(self.view() =~= old(self).view().push(val)) by {
                assert forall|k: int| 0 <= k < o.len() implies self.nodes@[o[k] as int].val == old_nodes[o[k] as int].val by {
                    assert(o[k] != i);
                }
            }
        }
        i
    }
}

impl<T> Dlinklist<T> {
    fn take_val(&mut self, i: usize) -> (r: T)
        requires
            i < old(self).nodes@.len(),
            old(self).nodes@[i as int].val is Some,
        ensures
            r == old(self).nodes@[i as int].val->Some_0,
            final(self).nodes@.len() == old(self).nodes@.len(),
            forall|x: int| 0 <= x < old(self).nodes@.len() && x != i ==> final(self).nodes@[x] == old(self).nodes@[x],
            final(self).nodes@[i as int].val is None,
            final(self).free == old(self).free,
            final(self).order == old(self).order,
            final(self).head == old(self).head,
            final(self).tail == old(self).tail,
            final(self).size == old(self).size,
    {
        self.nodes[i].val.take().unwrap()
    }

    /// Unlinks the node with handle `h`; returns its value.
    #[verifier::spinoff_prover]
    #[verifier::rlimit(100)]
    pub fn erase(&mut self, h: usize) -> (r: T)
        requires
            old(self).wf(),
            old(self).handles().contains(h),
        ensures
            final(self).wf(),
            exists|p: int|
                0 <= p < old(self).handles().len() && old(self).handles()[p] == h && final(self).handles()
                    == old(self).handles().remove(p) && final(self).view() == old(self).view().remove(p) && r
                    == old(self).view()[p],
    {
        let ghost o = self.order@;
        let ghost p = choose|p: int| 0 <= p < o.len() && o[p] == h;
        let ghost n0 = self.nodes@;
        proof {
            assert(o[p] == h);
        }
        let prev = self.nodes[h].prev;
        let next = self.nodes[h].next;
        match prev {
            Some(a) => {
                proof {
                    assert(o[p - 1] == a);
                }
                self.set_next(a, next);
            },
            None => {
                self.head = next;
            },
        }
        let ghost n1 = self.nodes@;
        match next {
            Some(b) => {
                proof {
                    assert(o[p + 1] == b);
                }
                self.set_prev(b, prev);
            },
            None => {
                self.tail = prev;
            },
        }
        let ghost n2 = self.nodes@;
        let v = self.take_val(h);
        let ghost n3 = self.nodes@;
        proof {
            assert forall|j: int| 0 <= j < self.free@.len() implies #[trigger] self.free@[j] != h by {
                assert(n0[self.free@[j] as int].val is None);
            }
        }
        self.free.push(h);
        self.size = self.size - 1;
        proof {
            let o2 = o.remove(p);
            self.order@ = o2;
            assert forall|x: int| 0 <= x < n0.len() && x != h implies #[trigger] n3[x].val == n0[x].val by {}
            assert forall|x: int|
                0 <= x < n0.len() && x != h && (p == 0 || x != o[p - 1]) && (p + 1 == o.len() || x != o[p + 1])
                    implies #[trigger] n3[x] == n0[x] by {}
            assert forall|k: int| 0 <= k < o2.len() implies {
                &&& #[trigger] o2[k] < self.nodes@.len()
                &&& self.nodes@[o2[k] as int].val is Some
                &&& self.nodes@[o2[k] as int].prev == at(o2, k - 1)
                &&& self.nodes@[o2[k] as int].next == at(o2, k + 1)
            } by {
                if k < p {
                    assert(o2[k] == o[k]);
                    assert(o[k] != h);
                    if k + 1 < p {
                        assert(o[k] != o[p - 1]);
                        if p + 1 < o.len() {
                            assert(o[k] != o[p + 1]);
                        }
                        assert(o2[k + 1] == o[k + 1]);
                    } else {
                        assert(k == p - 1);
                        if p + 1 < o.len() {
                            assert(o[k] != o[p + 1]);
                            assert(o2[k + 1] == o[p + 1]);
                        }
                    }
                    if k > 0 {
                        assert(o2[k - 1] == o[k - 1]);
                    }
                } else {
                    assert(o2[k] == o[k + 1]);
                    assert(o[k + 1] != h);
                    if k > p {
                        assert(o[k + 1] != o[p + 1]);
                        if p > 0 {
                            assert(o[k + 1] != o[p - 1]);
                        }
                        assert(o2[k - 1] == o[k]);
                    } else {
                        if p > 0 {
                            assert(o[k + 1] != o[p - 1]);
                            assert(o2[k - 1] == o[p - 1]);
                        }
                    }
                    if k + 1 < o2.len() {
                        assert(o2[k + 1] == o[k + 2]);
                    }
                }
            }
            assert forall|a: int, b: int| 0 <= a < o2.len() && 0 <= b < o2.len() && a != b implies #[trigger] o2[a]
                != #[trigger] o2[b] by {
                let a2 = if a < p { a } else { a + 1 };
                let b2 = if b < p { b } else { b + 1 };
                assert(o2[a] == o[a2] && o2[b] == o[b2]);
            }
            if p > 0 {
                assert(o2[0] == o[0]);
            } else if o2.len() > 0 {
                assert(o2[0] == o[1]);
            }
            if p + 1 < o.len() {
                assert(o2[o2.len() - 1] == o[o.len() - 1]);
            } else if o2.len() > 0 {
                assert(o2[o2.len() - 1] == o[o.len() - 2]);
            }
            assert forall|j: int| 0 <= j < self.free@.len() implies #[trigger] self.free@[j] < self.nodes@.len()
                && self.nodes@[self.free@[j] as int].val is None by {
                if j < self.free@.len() - 1 {
                    assert(old(self).free@[j] == self.free@[j]);
                }
            }
            assert forall|j1: int, j2: int|
                0 <= j1 < self.free@.len() && 0 <= j2 < self.free@.len() && j1 != j2 implies #[trigger] self.free@[j1]
                != #[trigger] self.free@[j2] by {
                let n = self.free@.len() - 1;
                if j1 < n {
                    assert(old(self).free@[j1] == self.free@[j1]);
                }
                if j2 < n {
                    assert(old(self).free@[j2] == self.free@[j2]);
                }
            }
            assert(self.view() =~= old(self).view().remove(p)) by {
                assert forall|k: int| 0 <= k < o2.len() implies self.nodes@[o2[k] as int].val == n0[o2[k] as int].val by {
                    let k2 = if k < p { k } else { k + 1 };
                    assert(o2[k] == o[k2]);
                }
            }
        }
        v
    }

    /// Removes and returns the front value, if any.
    pub fn pop_front(&mut self) -> (r: Option<T>)
        requires
            old(self).wf(),
        ensures
            final(self).wf(),
            old(self).view().len() == 0 ==> r is None && final(self).view() == old(self).view(),
            old(self).view().len() > 0 ==> r == Some(old(self).view()[0]) && final(self).view() == old(self).view().drop_first(),
            old(self).view().len() > 0 ==> final(self).handles() == old(self).handles().drop_first(),
            old(self).view().len() == 0 ==> final(self).handles() == old(self).handles(),
    {
        match self.head {
            None => None,
            Some(h) => {
                proof {
                    assert(self.order@[0] == h);
                }
                proof {
                    self.lemma_handles();
                    assert forall|p: int| 0 <= p < self.order@.len() && self.order@[p] == h implies p == 0 by {}
                }
                let v = self.erase(h);
                proof {
                    assert(old(self).view().remove(0) =~= old(self).view().drop_first());
                    assert(old(self).handles().remove(0) =~= old(self).handles().drop_first());
                }
                Some(v)
            },
        }
    }

    /// Removes and returns the back value, if any.
    pub fn pop_back(&mut self) -> (r: Option<T>)
        requires
            old(self).wf(),
        ensures
            final(self).wf(),
            old(self).view().len() == 0 ==> r is None && final(self).view() == old(self).view(),
            old(self).view().len() > 0 ==> r == Some(old(self).view().last()) && final(self).view() == old(self).view().drop_last(),
            old(self).view().len() > 0 ==> final(self).handles() == old(self).handles().drop_last(),
            old(self).view().len() == 0 ==> final(self).handles() == old(self).handles(),
    {
        match self.tail {
            None => None,
            Some(t) => {
                proof {
                    let n = self.order@.len() - 1;
                    assert(self.order@[n] == t);
                    assert forall|p: int| 0 <= p < self.order@.len() && self.order@[p] == t implies p == n by {}
                }
                let v = self.erase(t);
                proof {
                    assert(old(self).view().remove(old(self).view().len() - 1) =~= old(self).view().drop_last());
                    assert(old(self).handles().remove(old(self).handles().len() - 1) =~= old(self).handles().drop_last());
                }
                Some(v)
            },
        }
    }
}

impl<T: Copy> Dlinklist<T> {
    /// The front value, if any.
    pub fn front(&self) -> (r: Option<T>)
        requires
            self.wf(),
        ensures
            r == (if self.view().len() > 0 { Some(self.view()[0]) } else { None::<T> }),
    {
        match self.head {
            None => None,
            Some(h) => {
                proof {
                    assert(self.order@[0] == h);
                }
                self.nodes[h].val
            },
        }
    }

    /// The back value, if any.
    pub fn back(&self) -> (r: Option<T>)
        requires
            self.wf(),
        ensures
            r == (if self.view().len() > 0 { Some(self.view().last()) } else { None::<T> }),
    {
        match self.tail {
            None => None,
            Some(t) => {
                proof {
                    assert(self.order@[self.order@.len() - 1] == t);
                }
                self.nodes[t].val
            },
        }
    }
}

impl<T: Clone> Dlinklist<T> {
    /// A clone of the front value, if any.
    pub fn front_clone(&self) -> (r: Option<T>)
        requires
            self.wf(),
        ensures
            r is Some <==> self.view().len() > 0,
            r matches Some(c) ==> vstd::pervasive::cloned(self.view()[0], c),
    {
        match self.head {
            None => None,
            Some(h) => {
                proof {
                    assert(self.order@[0] == h);
                }
                match &self.nodes[h].val {
                    Some(v) => Some(v.clone()),
                    None => None,
                }
            },
        }
    }

    /// A clone of the back value, if any.
    pub fn back_clone(&self) -> (r: Option<T>)
        requires
            self.wf(),
        ensures
            r is Some <==> self.view().len() > 0,
            r matches Some(c) ==> vstd::pervasive::cloned(self.view().last(), c),
    {
        match self.tail {
            None => None,
            Some(t) => {
                proof {
                    assert(self.order@[self.order@.len() - 1] == t);
                }
                match &self.nodes[t].val {
                    Some(v) => Some(v.clone()),
                    None => None,
                }
            },
        }
    }
}

} // verus!
