//! A growable vector of slots, each either empty or holding a value.

use vstd::prelude::*;

verus! {

/// One position of a [`SlotVec`].
pub enum Slot<T> {
    Empty,
    Occupied(T),
}

impl<T> Slot<T> {
    /// Whether the slot holds no value.
    pub fn is_empty(&self) -> (r: bool)
        ensures
            r <==> self is Empty,
    {
        match self {
            Slot::Empty => true,
            Slot::Occupied(_) => false,
        }
    }

    /// The value held by an occupied slot.
    pub fn unwrap_ref(&self) -> (r: &T)
        requires
            self is Occupied,
        ensures
            *r == self->Occupied_0,
    {
        match self {
            Slot::Occupied(v) => v,
            Slot::Empty => vstd::pervasive::unreached(),
        }
    }

    /// A mutable reference to the value held by an occupied slot.
    pub fn unwrap_mut(&mut self) -> (r: &mut T)
        requires
            *old(self) is Occupied,
        ensures
            *r == (*old(self))->Occupied_0,
            *final(self) == Slot::Occupied(*final(r)),
    {
        match self {
            Slot::Occupied(v) => v,
            Slot::Empty => vstd::pervasive::unreached(),
        }
    }
}

/// The values held by the occupied slots of `s`, in slot order.
pub open spec fn occupied_values<T>(s: Seq<Slot<T>>) -> Seq<T>
    decreases s.len(),
{
    if s.len() == 0 {
        Seq::empty()
    } else {
        let rest = occupied_values(s.drop_last());
        match s.last() {
            Slot::Occupied(v) => rest.push(v),
            Slot::Empty => rest,
        }
    }
}

/// `n` empty slots.
pub open spec fn empty_slots<T>(n: nat) -> Seq<Slot<T>> {
    Seq::new(n, |i: int| Slot::Empty)
}

/// The slots of `s`, extended with empty slots so that `index` is a valid position.
pub open spec fn grown_to<T>(s: Seq<Slot<T>>, index: int) -> Seq<Slot<T>> {
    if index < s.len() {
        s
    } else {
        s + empty_slots((index + 1 - s.len()) as nat)
    }
}

/// A vector of slots. Reading past the end answers `None`; writing past the end
/// first extends the vector with empty slots.
pub struct SlotVec<T> {
    pub inner: Vec<Slot<T>>,
}

impl<T> View for SlotVec<T> {
    type V = Seq<Slot<T>>;

    open spec fn view(&self) -> Seq<Slot<T>> {
        self.inner@
    }
}

impl<T> SlotVec<T> {
    /// A vector of `slot_count` empty slots.
    pub fn new(slot_count: usize) -> (r: Self)
        ensures
            r@ == empty_slots::<T>(slot_count as nat),
    {
        let mut inner: Vec<Slot<T>> = Vec::new();
        let mut i: usize = 0;
        while i < slot_count
            invariant
                i <= slot_count,
                inner@ == empty_slots::<T>(i as nat),
            decreases slot_count - i,
        {
            inner.push(Slot::Empty);
            i = i + 1;
        }
        SlotVec { inner }
    }

    /// The slot at `index`, or `None` past the end.
    pub fn get(&self, index: usize) -> (r: Option<&Slot<T>>)
        requires
            self@.len() > 0,
        ensures
            index < self@.len() ==> r == Some(&self@[index as int]),
            index >= self@.len() ==> r is None,
    {
        if index <= self.inner.len() - 1 {
            return Some(&self.inner[index]);
        }
        return None;
    }

    /// Extends the vector with empty slots so that `index` is a valid position.
    fn grow_to(&mut self, index: usize)
        requires
            old(self)@.len() > 0,
        ensures
            final(self)@ == grown_to(old(self)@, index as int),
    {
        if index < self.inner.len() {
            return;
        }
        let ghost start = self.inner@;
        let n: usize = index - self.inner.len() + 1;
        let mut k: usize = 0;
        while k < n
            invariant
                k <= n,
                n == index - start.len() + 1,
                self.inner@ == start + empty_slots::<T>(k as nat),
            decreases n - k,
        {
            self.inner.push(Slot::Empty);
            proof {
                assert(start + empty_slots::<T>((k + 1) as nat) =~= (start + empty_slots::<T>(
                    k as nat,
                )).push(Slot::Empty));
            }
            k = k + 1;
        }
    }

    /// The slot at `index`, for writing. Past the end, the vector is first
    /// extended with empty slots up to and including `index`.
    pub fn get_mut(&mut self, index: usize) -> (r: Option<&mut Slot<T>>)
        requires
            old(self)@.len() > 0,
        ensures
            r is Some,
            *r->Some_0 == grown_to(old(self)@, index as int)[index as int],
            final(self)@ == grown_to(old(self)@, index as int).update(
                index as int,
                *final(r->Some_0),
            ),
    {
        self.grow_to(index);
        Some(&mut self.inner[index])
    }

    /// Places `val` in the slot just after `index` when that slot is empty
    /// (extending the vector as needed); answers whether it was placed.
    pub fn insert_after(&mut self, index: usize, val: T) -> (r: bool)
        requires
            old(self)@.len() > 0,
            index < usize::MAX,
        ensures
            ({
                let g = grown_to(old(self)@, index + 1);
                &&& r <==> g[index + 1] is Empty
                &&& r ==> final(self)@ == g.update(index + 1, Slot::Occupied(val))
                &&& !r ==> final(self)@ == g
                &&& (!r && index + 1 < old(self)@.len()) ==> *final(self) == *old(self)
            }),
    {
        let target = index + 1;
        if target < self.inner.len() {
            if self.inner[target].is_empty() {
                self.inner.set(target, Slot::Occupied(val));
                return true;
            }
            return false;
        }
        let empty = self.get_mut(target).unwrap().is_empty();
        if empty {
            self.inner.set(target, Slot::Occupied(val));
            return true;
        } else {
            return false;
        }
    }

    /// Places `val` in the slot just before `index` when that slot is empty;
    /// answers whether it was placed.
    pub fn insert_before(&mut self, index: usize, val: T) -> (r: bool)
        requires
            old(self)@.len() > 0,
            index > 0,
        ensures
            ({
                let g = grown_to(old(self)@, index - 1);
                &&& r <==> g[index - 1] is Empty
                &&& r ==> final(self)@ == g.update(index - 1, Slot::Occupied(val))
                &&& !r ==> final(self)@ == g
                &&& (!r && index - 1 < old(self)@.len()) ==> *final(self) == *old(self)
            }),
    {
        let target = index - 1;
        if target < self.inner.len() {
            if self.inner[target].is_empty() {
                self.inner.set(target, Slot::Occupied(val));
                return true;
            }
            return false;
        }
        let empty = self.get_mut(target).unwrap().is_empty();
        if empty {
            self.inner.set(target, Slot::Occupied(val));
            return true;
        } else {
            return false;
        }
    }

    /// Clears the slot at `index` and answers `true` when the position lies
    /// inside the vector; past the end nothing changes and `false` is answered.
    pub fn remove(&mut self, index: usize) -> (r: bool)
        ensures
            r == (index < old(self)@.len()),
            r ==> final(self)@ == old(self)@.update(index as int, Slot::Empty),
            !r ==> *final(self) == *old(self),
    {
        if index < self.inner.len() {
            self.inner.set(index, Slot::Empty);
            return true;
        }
        false
    }

    /// References to the values of the occupied slots, in slot order.
    pub fn flatten(&self) -> (r: Vec<&T>)
        ensures
            r@.len() == occupied_values(self@).len(),
            forall|i: int| 0 <= i < r@.len() ==> *r@[i] == occupied_values(self@)[i],
    {
        let mut out: Vec<&T> = Vec::new();
        let mut i: usize = 0;
        while i < self.inner.len()
            invariant
                i <= self@.len(),
                out@.len() == occupied_values(self@.take(i as int)).len(),
                forall|j: int|
                    0 <= j < out@.len() ==> *out@[j] == occupied_values(self@.take(i as int))[j],
            decreases self@.len() - i,
        {
            proof {
                assert(self@.take(i as int + 1).drop_last() =~= self@.take(i as int));
            }
            match &self.inner[i] {
                Slot::Empty => {},
                Slot::Occupied(v) => {
                    out.push(v);
                },
            }
            i = i + 1;
        }
        proof {
            assert(self@.take(self@.len() as int) =~= self@);
        }
        out
    }

    /// Mutable references to the values of the occupied slots, in slot order.
    /// What is written through them ends up in those slots; the slots stay
    /// occupied or empty as they were.
    pub fn flatten_mut(&mut self) -> (r: Vec<&mut T>)
        ensures
            r@.len() == occupied_values(old(self)@).len(),
            forall|i: int| 0 <= i < r@.len() ==> *r@[i] == occupied_values(old(self)@)[i],
            final(self)@.len() == old(self)@.len(),
            forall|i: int| 0 <= i < old(self)@.len() ==> ((#[trigger] final(self)@[i]) is Empty <==> old(self)@[i] is Empty),
            occupied_values(final(self)@).len() == r@.len(),
            forall|j: int| 0 <= j < r@.len() ==> #[trigger] occupied_values(final(self)@)[j] == *final(r@[j]),
    {
        let mut out: Vec<&mut T> = Vec::new();
        collect_occupied_mut(self.inner.as_mut_slice(), &mut out);
        proof {
            assert(occupied_values(old(self)@) =~= Seq::<T>::empty() + occupied_values(old(self)@));
        }
        out
    }
}

/// Appends to `out` mutable references to the values of the occupied slots of `s`.
fn collect_occupied_mut<'a, T>(s: &'a mut [Slot<T>], out: &mut Vec<&'a mut T>)
    ensures
        final(out)@.len() == old(out)@.len() + occupied_values(old(s)@).len(),
        forall|i: int| 0 <= i < old(out)@.len() ==> final(out)@[i] == old(out)@[i],
        forall|j: int|
            0 <= j < occupied_values(old(s)@).len() ==> *final(out)@[old(out)@.len() + j]
                == occupied_values(old(s)@)[j],
        final(s)@.len() == old(s)@.len(),
        forall|i: int| 0 <= i < old(s)@.len() ==> ((#[trigger] final(s)@[i]) is Empty <==> old(s)@[i] is Empty),
        occupied_values(final(s)@).len() == occupied_values(old(s)@).len(),
        forall|j: int|
            0 <= j < occupied_values(old(s)@).len() ==> #[trigger] occupied_values(final(s)@)[j]
                == *final(final(out)@[old(out)@.len() + j]),
    decreases old(s)@.len(),
{
    let n = s.len();
    if n == 0 {
        return;
    }
    let (front, back) = s.split_at_mut(n - 1);
    collect_occupied_mut(front, out);
    let last = back.first_mut().unwrap();
    proof {
        lemma_occupied_append_one::<T>();
        assert(old(s)@ =~= old(s)@.subrange(0, n - 1) + old(s)@.subrange(n - 1, n as int));
    }
    match last {
        Slot::Empty => {},
        Slot::Occupied(v) => {
            out.push(v);
        },
    }
}


/// The values held by slots and then one more slot: those of the first
/// slots, and the last slot's value if it holds one.
proof fn lemma_occupied_append_one<T>()
    ensures
        forall|a: Seq<Slot<T>>, b: Seq<Slot<T>>|
            b.len() == 1 ==> #[trigger] occupied_values(a + b) == match b[0] {
                Slot::Occupied(v) => occupied_values(a).push(v),
                Slot::Empty => occupied_values(a),
            },
{
    assert forall|a: Seq<Slot<T>>, b: Seq<Slot<T>>| b.len() == 1 implies #[trigger] occupied_values(a + b) == match b[0] {
        Slot::Occupied(v) => occupied_values(a).push(v),
        Slot::Empty => occupied_values(a),
    } by {
        assert((a + b).drop_last() =~= a);
        assert((a + b).last() == b[0]);
    }
}

/// Values held by slots and then by empty slots are those of the first slots.
proof fn lemma_occupied_empty_tail<T>(s: Seq<Slot<T>>, n: nat)
    ensures
        occupied_values(s + empty_slots::<T>(n)) == occupied_values(s),
    decreases n,
{
    if n == 0 {
        assert(s + empty_slots::<T>(0) =~= s);
    } else {
        let m = (n - 1) as nat;
        assert((s + empty_slots::<T>(n)).drop_last() =~= s + empty_slots::<T>(m));
        lemma_occupied_empty_tail(s, m);
    }
}

/// Growing never adds, loses or reorders a value: writing past the end
/// extends the vector with empty slots only.
pub proof fn law_growth_keeps_values<T>(s: Seq<Slot<T>>, index: int)
    ensures
        occupied_values(grown_to(s, index)) == occupied_values(s),
        grown_to(s, index).len() >= s.len(),
        forall|i: int| 0 <= i < s.len() ==> #[trigger] grown_to(s, index)[i] == s[i],
        index >= 0 ==> index < grown_to(s, index).len(),
{
    if index >= s.len() {
        lemma_occupied_empty_tail(s, (index + 1 - s.len()) as nat);
    }
}

/// What `insert_after` placed, `get` reads back: when the slot after
/// `index` was free, it now holds the value, and every other slot holds
/// what it held (slots past the old end, nothing).
pub proof fn law_insert_after_then_get<T>(old: Seq<Slot<T>>, new: Seq<Slot<T>>, index: int, val: T)
    requires
        0 <= index,
        grown_to(old, index + 1)[index + 1] is Empty,
        new == grown_to(old, index + 1).update(index + 1, Slot::Occupied(val)),
    ensures
        index + 1 < new.len(),
        new[index + 1] == Slot::Occupied(val),
        forall|i: int| 0 <= i < old.len() && i != index + 1 ==> #[trigger] new[i] == old[i],
        forall|i: int| old.len() <= i < new.len() && i != index + 1 ==> #[trigger] new[i] is Empty,
{
    law_growth_keeps_values(old, index + 1);
}

} // verus!
