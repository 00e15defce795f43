//! A vector whose elements can be moved out one by one, leaving holes.

use vstd::prelude::*;

verus! {

/// An alternative to `Vec<T>` that allows moving elements out of it by index.
/// A slot whose element was moved out is a hole.
pub struct HoleVec<T> {
    slots: Vec<Option<T>>,
}

impl<T> View for HoleVec<T> {
    type V = Seq<Option<T>>;

    /// The slots in order: `Some` for an element still there, `None` for a hole.
    closed spec fn view(&self) -> Seq<Option<T>> {
        self.slots@
    }
}

/// Every slot of `s` from index `from` on still holds its element.
pub open spec fn filled_from<T>(s: Seq<Option<T>>, from: int) -> bool {
    forall|k: int| from <= k < s.len() ==> (#[trigger] s[k]) is Some
}

impl<T> Default for HoleVec<T> {
    fn default() -> (v: Self)
        ensures
            v@ == Seq::<Option<T>>::empty(),
    {
        HoleVec::new()
    }
}

impl<T> HoleVec<T> {
    /// An empty vector.
    pub fn new() -> (v: Self)
        ensures
            v@ == Seq::<Option<T>>::empty(),
    {
        HoleVec { slots: Vec::new() }
    }

    /// A vector holding the elements of `data`, in order. Elements of a
    /// zero-sized type are not supported.
    pub fn from_vec(data: Vec<T>) -> (v: Self)
        requires
            vstd::layout::size_of::<T>() > 0,
        ensures
            v@.len() == data@.len(),
            forall|k: int| 0 <= k < data@.len() ==> #[trigger] v@[k] == Some(data@[k]),
    {
        let mut v = HoleVec::new();
        let mut data = data;
        let ghost orig = data@;
        let mut rest: Vec<T> = Vec::new();
        while data.len() > 0
            invariant
                rest@ == orig.skip(data@.len() as int).reverse(),
                data@ == orig.take(data@.len() as int),
                data@.len() <= orig.len(),
            decreases data@.len(),
        {
            let ghost n = data@.len();
            match data.pop() {
                Some(x) => {
                    rest.push(x);
                },
                None => {},
            }
            assert(rest@ =~= orig.skip(data@.len() as int).reverse());
            assert(data@ =~= orig.take(data@.len() as int));
        }
        assert(orig.skip(0) =~= orig);
        while rest.len() > 0
            invariant
                rest@.len() + v@.len() == orig.len(),
                forall|k: int| 0 <= k < v@.len() ==> #[trigger] v@[k] == Some(orig[k]),
                forall|k: int| 0 <= k < rest@.len() ==> #[trigger] rest@[k] == orig[orig.len() - 1 - k],
            decreases rest@.len(),
        {
            match rest.pop() {
                Some(x) => {
                    v.push(x);
                },
                None => {},
            }
        }
        v
    }

    /// The number of slots, holes included.
    pub fn len(&self) -> (n: usize)
        ensures
            n == self@.len(),
    {
        self.slots.len()
    }

    /// Appends an element.
    pub fn push(&mut self, elem: T)
        ensures
            final(self)@ == old(self)@.push(Some(elem)),
    {
        self.slots.push(Some(elem));
    }

    /// Moves out the element at `index`, leaving a hole. The slot must hold
    /// its element still.
    pub fn at(&mut self, index: usize) -> (r: T)
        requires
            index < old(self)@.len(),
            old(self)@[index as int] is Some,
        ensures
            Some(r) == old(self)@[index as int],
            final(self)@ == old(self)@.update(index as int, None),
    {
        let slot = self.slots.remove(index);
        self.slots.insert(index, None);
        proof {
            assert(self.slots@ =~= old(self)@.update(index as int, None));
        }
        slot.unwrap()
    }

    /// Moves out the element at `index`, leaving a hole, or returns `None` if
    /// `index` is past the end. A slot within bounds must hold its element still.
    pub fn get(&mut self, index: usize) -> (r: Option<T>)
        requires
            index < old(self)@.len() ==> old(self)@[index as int] is Some,
        ensures
            index >= old(self)@.len() ==> r is None && final(self)@ == old(self)@,
            index < old(self)@.len() ==> r == old(self)@[index as int] && final(self)@ == old(
                self,
            )@.update(index as int, None),
    {
        if index >= self.slots.len() {
            None
        } else {
            Some(self.at(index))
        }
    }

    /// Turns the vector into an iterator over its elements, front to back.
    /// Every slot must hold its element.
    pub fn into_iter(self) -> (it: IntoIter<T>)
        requires
            filled_from(self@, 0),
        ensures
            it.vec()@ == self@,
            it.index() == 0,
    {
        IntoIter { vec: self, idx: 0 }
    }
}

/// An iterator that moves the elements out of a [`HoleVec`], front to back.
pub struct IntoIter<T> {
    vec: HoleVec<T>,
    idx: usize,
}

impl<T> IntoIter<T> {
    /// The vector being consumed.
    pub closed spec fn vec(&self) -> HoleVec<T> {
        self.vec
    }

    /// The index of the next element.
    pub closed spec fn index(&self) -> int {
        self.idx as int
    }

    /// Returns the next element and moves past it, or `None` at the end.
    pub fn next(&mut self) -> (r: Option<T>)
        requires
            filled_from(old(self).vec()@, old(self).index()),
        ensures
            old(self).index() < old(self).vec()@.len() ==> {
                &&& r == old(self).vec()@[old(self).index()]
                &&& final(self).index() == old(self).index() + 1
                &&& final(self).vec()@ == old(self).vec()@.update(old(self).index(), None)
            },
            old(self).index() >= old(self).vec()@.len() ==> r is None && *final(self) == *old(
                self,
            ),
            filled_from(final(self).vec()@, final(self).index()),
    {
        if self.idx >= self.vec.len() {
            return None;
        }
        let el = self.vec.get(self.idx);
        self.idx = self.idx + 1;
        el
    }

    /// Moves out all remaining elements, in order, by calling [`IntoIter::next`]
    /// until it returns `None` (what collecting the iterator gives).
    pub fn collect_remaining(&mut self) -> (v: Vec<T>)
        requires
            filled_from(old(self).vec()@, old(self).index()),
            old(self).index() <= old(self).vec()@.len(),
        ensures
            v@.len() == old(self).vec()@.len() - old(self).index(),
            forall|j: int| 0 <= j < v@.len() ==> Some(#[trigger] v@[j]) == old(self).vec()@[old(self).index() + j],
            final(self).index() == old(self).vec()@.len(),
    {
        let mut v: Vec<T> = Vec::new();
        let ghost start = old(self).index();
        let ghost orig = old(self).vec()@;
        loop
            invariant
                filled_from(self.vec()@, self.index()),
                start <= self.index() <= orig.len(),
                self.vec()@.len() == orig.len(),
                forall|k: int| self.index() <= k < orig.len() ==> #[trigger] self.vec()@[k] == orig[k],
                v@.len() == self.index() - start,
                forall|j: int| 0 <= j < v@.len() ==> Some(#[trigger] v@[j]) == orig[start + j],
            ensures
                self.index() == orig.len(),
                v@.len() == orig.len() - start,
                forall|j: int| 0 <= j < v@.len() ==> Some(#[trigger] v@[j]) == orig[start + j],
            decreases orig.len() - self.index(),
        {
            let ghost i = self.index();
            match self.next() {
                Some(x) => {
                    v.push(x);
                    assert(Some(v@[v@.len() - 1]) == orig[start + (v@.len() - 1)]);
                },
                None => {
                    assert(i >= orig.len()) by {
                        if i < orig.len() {
                            assert(self.vec()@[i] is Some);
                        }
                    }
                    break;
                },
            }
        }
        v
    }
}

/// Collecting the iterator of a vector made from `data` gives `data` back:
/// each element once, in order. `slots` are the slots [`HoleVec::from_vec`]
/// gives, and `v` what [`IntoIter::collect_remaining`] gives from the start.
pub proof fn law_collect_gives_elements_back<T>(data: Seq<T>, slots: Seq<Option<T>>, v: Seq<T>)
    requires
        slots.len() == data.len(),
        forall|k: int| 0 <= k < data.len() ==> #[trigger] slots[k] == Some(data[k]),
        v.len() == slots.len(),
        forall|j: int| 0 <= j < v.len() ==> Some(#[trigger] v[j]) == slots[j],
    ensures
        v == data,
{
    assert forall|j: int| 0 <= j < v.len() implies #[trigger] v[j] == data[j] by {
        assert(Some(v[j]) == slots[j]);
    }
    assert(v =~= data);
}

} // verus!
