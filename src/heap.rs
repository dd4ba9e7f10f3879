//! The binary heap: a packed array with a sentinel in slot 0 and the root in slot 1.

use crate::order::{Comparator, MaxFirst, MinFirst};
use vstd::laws_cmp::obeys_cmp;
use vstd::multiset::Multiset;
use vstd::prelude::*;

verus! {

broadcast use {vstd::seq_lib::group_to_multiset_ensures, vstd::multiset::group_multiset_axioms};

/// No element in slots `2..=n` of `s` outranks the element in its parent slot `i / 2`.
pub open spec fn heap_ordered<T, C: Comparator<T>>(s: Seq<T>, n: int) -> bool {
    forall|i: int| 2 <= i <= n ==> !C::spec_outranks(#[trigger] s[i], s[i / 2])
}

/// `x` is in `m`, and no element of `m` outranks it.
pub open spec fn is_top<T, C: Comparator<T>>(m: Multiset<T>, x: T) -> bool {
    &&& m.contains(x)
    &&& forall|y: T| m.contains(y) ==> !C::spec_outranks(y, x)
}

/// `s` lists what successive extractions hand out from a heap holding `m`, until it is empty:
/// each one is a top element of what is left, and it is taken out.
pub open spec fn drains_to<T, C: Comparator<T>>(m: Multiset<T>, s: Seq<T>) -> bool
    decreases s.len(),
{
    if s.len() == 0 {
        m.len() == 0
    } else {
        is_top::<T, C>(m, s[0]) && drains_to::<T, C>(m.remove(s[0]), s.drop_first())
    }
}

/// Draining a heap hands out exactly the elements it held, and no element handed out
/// outranks one handed out before it, whatever order they were inserted in.
pub proof fn lemma_drain_sorted<T, C: Comparator<T>>(m: Multiset<T>, s: Seq<T>)
    requires
        drains_to::<T, C>(m, s),
    ensures
        s.to_multiset() == m,
        forall|i: int, j: int|
            0 <= i < j < s.len() ==> !C::spec_outranks(#[trigger] s[j], #[trigger] s[i]),
    decreases s.len(),
{
    if s.len() == 0 {
        assert(m =~= Multiset::<T>::empty());
    } else {
        let rest = s.drop_first();
        lemma_drain_sorted::<T, C>(m.remove(s[0]), rest);
        assert(s.remove(0) == rest);
        assert(rest.to_multiset() == s.to_multiset().remove(s[0]));
        assert(s.contains(s[0]));
        assert(s.to_multiset().count(s[0]) > 0);
        assert forall|a: T| #[trigger] s.to_multiset().count(a) == m.count(a) by {
            assert(rest.to_multiset().count(a) == s.to_multiset().remove(s[0]).count(a));
            assert(rest.to_multiset().count(a) == m.remove(s[0]).count(a));
        }
        assert(s.to_multiset() =~= m);
        assert forall|i: int, j: int| 0 <= i < j < s.len() implies !C::spec_outranks(
            #[trigger] s[j],
            #[trigger] s[i],
        ) by {
            assert(rest[j - 1] == s[j]);
            if i == 0 {
                assert(rest.contains(s[j]));
                assert(rest.to_multiset().count(s[j]) > 0);
                assert(m.remove(s[0]).contains(s[j]));
                assert(m.contains(s[j]));
            } else {
                assert(rest[i - 1] == s[i]);
                assert(0 <= i - 1 < j - 1 < rest.len());
            }
        }
    }
}

/// A priority queue over a packed array.
///
/// Slot 0 holds a placeholder that is never compared or handed out; the live elements
/// sit in slots `1..=count`, and the children of slot `i` are slots `2 * i` and `2 * i + 1`.
pub struct Heap<T, C> {
    count: usize,
    items: Vec<T>,
    comparator: C,
}

impl<T, C: Comparator<T>> View for Heap<T, C> {
    type V = Multiset<T>;

    /// The elements that the heap holds.
    closed spec fn view(&self) -> Multiset<T> {
        self.items@.drop_first().to_multiset()
    }
}

/// Relies on `<[T]>::swap`: it exchanges the elements at positions `i` and `j`,
/// and panics only when one of them is out of bounds.
#[verifier::external_body]
fn swap_slots<T>(v: &mut Vec<T>, i: usize, j: usize)
    requires
        i < old(v)@.len(),
        j < old(v)@.len(),
    ensures
        final(v)@ == old(v)@.update(i as int, old(v)@[j as int]).update(j as int, old(v)@[i as int]),
{
    v.swap(i, j)
}

/// Exchanging two live slots keeps the elements held.
proof fn lemma_swap_contents<T>(s: Seq<T>, i: int, j: int)
    requires
        1 <= i < s.len(),
        1 <= j < s.len(),
    ensures
        s.update(i, s[j]).update(j, s[i]).drop_first().to_multiset() == s.drop_first().to_multiset(),
{
    let d = s.drop_first();
    let d1 = d.update(i - 1, d[j - 1]);
    assert(s.update(i, s[j]).update(j, s[i]).drop_first() == d1.update(j - 1, d[i - 1]));
    assert(d1.to_multiset() == d.to_multiset().insert(d[j - 1]).remove(d[i - 1]));
    assert(d1.update(j - 1, d[i - 1]).to_multiset() == d1.to_multiset().insert(d[i - 1]).remove(
        d1[j - 1],
    ));
    assert(d1.update(j - 1, d[i - 1]).to_multiset() =~= d.to_multiset());
}

/// Moving the last slot into slot 1 and dropping the last slot takes the root out.
proof fn lemma_swap_remove_contents<T>(s: Seq<T>)
    requires
        2 <= s.len(),
    ensures
        s.update(1, s.last()).drop_last().drop_first().to_multiset() == s.drop_first().to_multiset().remove(
            s[1],
        ),
{
    let d = s.drop_first();
    let d1 = d.update(0, d.last());
    assert(s.update(1, s.last()).drop_last().drop_first() == d1.remove(d1.len() - 1));
    assert(d1.to_multiset() == d.to_multiset().insert(d.last()).remove(d[0]));
    assert(d1.remove(d1.len() - 1).to_multiset() == d1.to_multiset().remove(d1[d1.len() - 1]));
    assert(d1.remove(d1.len() - 1).to_multiset() =~= d.to_multiset().remove(d[0]));
}

/// In a heap-ordered array, nothing outranks the root.
proof fn lemma_root_is_top<T, C: Comparator<T>>(s: Seq<T>, n: int, i: int)
    requires
        C::lawful(),
        heap_ordered::<T, C>(s, n),
        1 <= i <= n,
        n < s.len(),
    ensures
        !C::spec_outranks(s[i], s[1]),
    decreases i,
{
    if i == 1 {
        C::lemma_irreflexive(s[1]);
    } else {
        lemma_root_is_top::<T, C>(s, n, i / 2);
        C::lemma_not_outranked_transitive(s[i], s[i / 2], s[1]);
    }
}

/// `a` outranks `b`, so `b` does not outrank `a`.
proof fn lemma_asymmetric<T, C: Comparator<T>>(a: T, b: T)
    requires
        C::lawful(),
        C::spec_outranks(a, b),
    ensures
        !C::spec_outranks(b, a),
{
    if C::spec_outranks(b, a) {
        C::lemma_transitive(a, b, a);
        C::lemma_irreflexive(a);
    }
}

impl<T, C: Comparator<T>> Heap<T, C> {
    /// The array behind the heap, sentinel slot included.
    pub closed spec fn slots(&self) -> Seq<T> {
        self.items@
    }

    /// The layout holds: one slot per element plus the sentinel, and a lawful order.
    closed spec fn shaped(&self) -> bool {
        &&& C::lawful()
        &&& self.items@.len() == self.count + 1
        &&& self.items@.len() <= usize::MAX
    }

    /// The layout holds and no child outranks its parent.
    pub closed spec fn wf(&self) -> bool {
        &&& self.shaped()
        &&& heap_ordered::<T, C>(self.items@, self.count as int)
    }

    /// After any sequence of insertions and extractions, every slot past the root holds an
    /// element that does not outrank the one in its parent slot.
    pub proof fn lemma_heap_property(&self)
        requires
            self.wf(),
        ensures
            self.slots().len() == self@.len() + 1,
            self.slots().drop_first().to_multiset() == self@,
            forall|i: int|
                2 <= i <= self@.len() ==> !C::spec_outranks(
                    #[trigger] self.slots()[i],
                    self.slots()[i / 2],
                ),
    {
        assert(self.items@.drop_first().len() == self.items@.drop_first().to_multiset().len());
    }

    /// The number of elements held.
    pub fn len(&self) -> (r: usize)
        requires
            self.wf(),
        ensures
            r == self@.len(),
    {
        self.count
    }

    /// Whether the heap holds no element.
    pub fn is_empty(&self) -> (r: bool)
        requires
            self.wf(),
        ensures
            r == (self@.len() == 0),
    {
        self.len() == 0
    }

    fn parent_idx(&self, idx: usize) -> (r: usize)
        ensures
            r == idx / 2,
    {
        idx / 2
    }

    fn children_present(&self, idx: usize) -> (r: bool)
        ensures
            r == (2 * idx <= self.count),
    {
        idx <= self.count / 2
    }

    fn left_child_idx(&self, idx: usize) -> (r: usize)
        requires
            2 * idx <= usize::MAX,
        ensures
            r == 2 * idx,
    {
        idx * 2
    }

    fn right_child_idx(&self, idx: usize) -> (r: usize)
        requires
            2 * idx + 1 <= usize::MAX,
        ensures
            r == 2 * idx + 1,
    {
        self.left_child_idx(idx) + 1
    }

    /// The child of `idx` that has the higher priority: the right one only where it
    /// is present and outranks the left one. Without children, 0.
    fn dominant_child_idx(&self, idx: usize) -> (r: usize)
        requires
            self.shaped(),
        ensures
            2 * idx > self.count ==> r == 0,
            2 * idx <= self.count ==> {
                &&& r == 2 * idx || r == 2 * idx + 1
                &&& r <= self.count
                &&& r == 2 * idx + 1 ==> C::spec_outranks(self.items@[r as int], self.items@[2 * idx])
                &&& r == 2 * idx ==> (2 * idx + 1 <= self.count ==> !C::spec_outranks(
                    self.items@[2 * idx + 1],
                    self.items@[2 * idx],
                ))
            },
    {
        if !self.children_present(idx) {
            return 0;
        }
        let left = self.left_child_idx(idx);
        let right = self.right_child_idx(idx);
        if right <= self.count && self.comparator.outranks(&self.items[right], &self.items[left]) {
            right
        } else {
            left
        }
    }

    /// Inserts `value`, then lifts it towards the root while it outranks its parent.
    pub fn add(&mut self, value: T)
        requires
            old(self).wf(),
        ensures
            final(self).wf(),
            final(self)@ == old(self)@.insert(value),
            final(self)@.len() == old(self)@.len() + 1,
    {
        let ghost before = self.items@;
        self.items.push(value);
        proof {
            assert(self.items@.len() == self.items.len());
            assert(self.items@.drop_first() == before.drop_first().push(value));
        }
        self.count += 1;
        let mut index: usize = self.count;
        loop
            invariant
                self.shaped(),
                1 <= index <= self.count,
                self.items@.drop_first().to_multiset() == before.drop_first().to_multiset().insert(
                    value,
                ),
                forall|i: int|
                    2 <= i <= self.count && i != index ==> !C::spec_outranks(
                        #[trigger] self.items@[i],
                        self.items@[i / 2],
                    ),
                forall|i: int|
                    2 <= i <= self.count && i / 2 == index && index >= 2 ==> !C::spec_outranks(
                        #[trigger] self.items@[i],
                        self.items@[(index / 2) as int],
                    ),
            ensures
                heap_ordered::<T, C>(self.items@, self.count as int),
            decreases index,
        {
            let parent = self.parent_idx(index);
            if parent == 0 {
                break;
            }
            if self.comparator.outranks(&self.items[index], &self.items[parent]) {
                let ghost s = self.items@;
                swap_slots(&mut self.items, index, parent);
                proof {
                    lemma_swap_contents(s, index as int, parent as int);
                    lemma_asymmetric::<T, C>(s[index as int], s[parent as int]);
                    let t = self.items@;
                    assert forall|i: int| 2 <= i <= self.count && i != parent implies !C::spec_outranks(
                        #[trigger] t[i],
                        t[i / 2],
                    ) by {
                        if i / 2 == parent && i != index {
                            if C::spec_outranks(s[i], s[index as int]) {
                                C::lemma_transitive(s[i], s[index as int], s[parent as int]);
                            }
                        }
                    }
                    assert forall|i: int|
                        2 <= i <= self.count && i / 2 == parent && parent >= 2 implies !C::spec_outranks(
                        #[trigger] t[i],
                        t[(parent / 2) as int],
                    ) by {
                        assert(!C::spec_outranks(s[parent as int], s[(parent / 2) as int]));
                        if i != index {
                            C::lemma_not_outranked_transitive(s[i], s[parent as int], s[(parent / 2) as int]);
                        }
                    }
                }
                index = parent;
            } else {
                break;
            }
        }
    }

    /// Takes out an element that nothing left in the heap outranks, or `None` when empty.
    ///
    /// The last slot moves into the root, which then sinks while a child outranks it.
    pub fn next(&mut self) -> (r: Option<T>)
        requires
            old(self).wf(),
        ensures
            final(self).wf(),
            r is None <==> old(self)@.len() == 0,
            match r {
                Some(x) => is_top::<T, C>(old(self)@, x) && final(self)@ == old(self)@.remove(x),
                None => final(self)@ == old(self)@,
            },
            final(self)@.len() == if r is Some {
                (old(self)@.len() - 1) as nat
            } else {
                old(self)@.len()
            },
    {
        if self.is_empty() {
            return None;
        }
        let ghost before = self.items@;
        proof {
            assert forall|y: T| self@.contains(y) implies !C::spec_outranks(y, before[1]) by {
                assert(before.drop_first().contains(y));
                let k = choose|k: int| 0 <= k < before.drop_first().len() && before.drop_first()[k] == y;
                lemma_root_is_top::<T, C>(before, self.count as int, k + 1);
            }
            assert(before.drop_first()[0] == before[1]);
            assert(before.drop_first().contains(before[1]));
        }
        let result = self.items.swap_remove(1);
        self.count -= 1;
        proof {
            lemma_swap_remove_contents(before);
        }
        let ghost target = self.items@.drop_first().to_multiset();
        let mut index: usize = 1;
        while self.children_present(index)
            invariant
                self.shaped(),
                1 <= index,
                index <= self.count || index == 1,
                self.items@.drop_first().to_multiset() == target,
                forall|i: int|
                    2 <= i <= self.count && i / 2 != index ==> !C::spec_outranks(
                        #[trigger] self.items@[i],
                        self.items@[i / 2],
                    ),
                forall|i: int|
                    2 <= i <= self.count && i / 2 == index && index >= 2 ==> !C::spec_outranks(
                        #[trigger] self.items@[i],
                        self.items@[(index / 2) as int],
                    ),
            ensures
                heap_ordered::<T, C>(self.items@, self.count as int),
            decreases self.count - index,
        {
            let child = self.dominant_child_idx(index);
            if self.comparator.outranks(&self.items[child], &self.items[index]) {
                let ghost s = self.items@;
                swap_slots(&mut self.items, child, index);
                proof {
                    lemma_swap_contents(s, child as int, index as int);
                    lemma_asymmetric::<T, C>(s[child as int], s[index as int]);
                    let t = self.items@;
                    let sibling = if child == 2 * index { 2 * index + 1 } else { 2 * index };
                    if child == 2 * index + 1 {
                        lemma_asymmetric::<T, C>(s[child as int], s[2 * index]);
                    }
                    assert forall|i: int| 2 <= i <= self.count && i / 2 != child implies !C::spec_outranks(
                        #[trigger] t[i],
                        t[i / 2],
                    ) by {
                        if i / 2 == index {
                            assert(i == child || i == sibling);
                        }
                    }
                    assert forall|i: int|
                        2 <= i <= self.count && i / 2 == child implies !C::spec_outranks(
                        #[trigger] t[i],
                        t[(child / 2) as int],
                    ) by {
                        assert(i / 2 != index);
                    }
                }
                index = child;
            } else {
                proof {
                    let s = self.items@;
                    assert forall|i: int| 2 <= i <= self.count implies !C::spec_outranks(
                        #[trigger] s[i],
                        s[i / 2],
                    ) by {
                        if i / 2 == index && i != child {
                            if child == 2 * index + 1 {
                                lemma_asymmetric::<T, C>(s[child as int], s[2 * index]);
                            }
                            assert(i == 2 * index || i == 2 * index + 1);
                            C::lemma_not_outranked_transitive(s[i], s[child as int], s[index as int]);
                        }
                    }
                }
                break;
            }
        }
        Some(result)
    }
}

impl<T: Default, C: Comparator<T>> Heap<T, C> {
    /// An empty heap ordered by `comparator`.
    pub fn new(comparator: C) -> (h: Self)
        requires
            C::lawful(),
        ensures
            h.wf(),
            h@ =~= Multiset::<T>::empty(),
    {
        let h = Heap { count: 0, items: vec![T::default()], comparator };
        proof {
            assert(h.items@.drop_first() =~= Seq::<T>::empty());
        }
        h
    }
}

impl<T: Default + Ord> Heap<T, MinFirst> {
    /// An empty heap that hands out its smallest element first.
    pub fn new_min() -> (h: Self)
        requires
            obeys_cmp::<T>(),
        ensures
            h.wf(),
            h@ =~= Multiset::<T>::empty(),
    {
        Self::new(MinFirst)
    }
}

impl<T: Default + Ord> Heap<T, MaxFirst> {
    /// An empty heap that hands out its largest element first.
    pub fn new_max() -> (h: Self)
        requires
            obeys_cmp::<T>(),
        ensures
            h.wf(),
            h@ =~= Multiset::<T>::empty(),
    {
        Self::new(MaxFirst)
    }
}

/// Builds heaps that hand out their smallest element first.
pub struct MinHeap;

impl MinHeap {
    /// An empty heap that hands out its smallest element first.
    pub fn new<T: Default + Ord>() -> (h: Heap<T, MinFirst>)
        requires
            obeys_cmp::<T>(),
        ensures
            h.wf(),
            h@ =~= Multiset::<T>::empty(),
    {
        Heap::new(MinFirst)
    }
}

/// Builds heaps that hand out their largest element first.
pub struct MaxHeap;

impl MaxHeap {
    /// An empty heap that hands out its largest element first.
    pub fn new<T: Default + Ord>() -> (h: Heap<T, MaxFirst>)
        requires
            obeys_cmp::<T>(),
        ensures
            h.wf(),
            h@ =~= Multiset::<T>::empty(),
    {
        Heap::new(MaxFirst)
    }
}

} // verus!
