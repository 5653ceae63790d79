use vstd::prelude::*;
use crate::error::IndexTooHigh;

verus! {

/// What a history keeps when `elem` is pushed to one that kept `kept`: the
/// new value first, then the old ones but the last.
pub open spec fn pushed<T>(kept: Seq<T>, elem: T) -> Seq<T> {
    seq![elem] + kept.drop_last()
}

/// What a history keeps when the values `elems` are pushed, one after the
/// other, to one that kept `kept`.
pub open spec fn pushed_all<T>(kept: Seq<T>, elems: Seq<T>) -> Seq<T>
    decreases elems.len(),
{
    if elems.len() == 0 {
        kept
    } else {
        pushed(pushed_all(kept, elems.drop_last()), elems.last())
    }
}

/// A history keeps its size. The value at `age` is the one pushed `age`
/// pushes before the last, as far back as values were pushed, and beyond
/// that what the history kept before, `elems.len()` places further on.
pub proof fn lemma_pushed_all<T>(kept: Seq<T>, elems: Seq<T>)
    requires
        kept.len() > 0,
    ensures
        pushed_all(kept, elems).len() == kept.len(),
        forall|age: int|
            0 <= age < kept.len() && age < elems.len() ==> #[trigger] pushed_all(kept, elems)[age]
                == elems[elems.len() - 1 - age],
        forall|age: int|
            elems.len() <= age < kept.len() ==> #[trigger] pushed_all(kept, elems)[age] == kept[age
                - elems.len()],
    decreases elems.len(),
{
    if elems.len() > 0 {
        lemma_pushed_all(kept, elems.drop_last());
    }
}

/// The last values pushed, a fixed number of them, the newest first.
pub struct History<T: Copy> {
    v: Vec<T>,
    index: usize,
}

impl<T: Copy> History<T> {
    /// The slots hold the values in the order of pushing, around a ring, and
    /// `index` is the slot of the newest.
    pub closed spec fn wf(&self) -> bool {
        self.index < self.v.len()
    }

    /// The slot that holds the value pushed `age` pushes before the newest.
    closed spec fn slot(&self, age: int) -> int {
        if age <= self.index {
            self.index - age
        } else {
            self.index + self.v.len() - age
        }
    }

    /// The values kept, by age: the newest at 0, the oldest last.
    pub closed spec fn view(&self) -> Seq<T> {
        Seq::new(self.v.len() as nat, |age: int| self.v[self.slot(age)])
    }

    /// How many values the history keeps.
    pub open spec fn capacity(&self) -> nat {
        self@.len()
    }

    /// A history keeps one value at least.
    pub proof fn lemma_capacity_positive(&self)
        requires
            self.wf(),
        ensures
            self.capacity() > 0,
    {
    }

    /// A history of `capacity` values, all of them `elem`.
    pub fn new(capacity: usize, elem: T) -> (h: Self)
        requires
            capacity > 0,
        ensures
            h.wf(),
            h@ == Seq::new(capacity as nat, |age: int| elem),
    {
        let mut v: Vec<T> = Vec::new();
        while v.len() < capacity
            invariant
                v.len() <= capacity,
                forall|i: int| 0 <= i < v.len() ==> v[i] == elem,
            decreases capacity - v.len(),
        {
            v.push(elem);
        }
        let h = History { v, index: 0 };
        assert(h@ =~= Seq::new(capacity as nat, |age: int| elem));
        h
    }

    /// Records `elem` as the newest value; the oldest is forgotten.
    pub fn push(&mut self, elem: T)
        requires
            old(self).wf(),
        ensures
            final(self).wf(),
            final(self)@ == pushed(old(self)@, elem),
            final(self)@.len() == old(self)@.len(),
    {
        let next: usize = if self.index + 1 == self.v.len() {
            0
        } else {
            self.index + 1
        };
        self.index = next;
        self.v.set(next, elem);
        assert(self@ =~= pushed(old(self)@, elem));
    }

    /// The value pushed `index` pushes before the newest, if the history
    /// keeps that many.
    pub fn get_value(&self, index: usize) -> (r: Result<T, IndexTooHigh>)
        requires
            self.wf(),
        ensures
            index < self.capacity() ==> r == Ok::<T, IndexTooHigh>(self@[index as int]),
            index >= self.capacity() ==> r is Err,
    {
        if index >= self.v.len() {
            return Err(IndexTooHigh);
        }
        if index <= self.index {
            Ok(self.v[self.index - index])
        } else {
            Ok(self.v[self.index + (self.v.len() - index)])
        }
    }

    /// The newest value.
    pub fn first(&self) -> (r: T)
        requires
            self.wf(),
        ensures
            r == self@[0],
    {
        self.v[self.index]
    }
}

} // verus!
