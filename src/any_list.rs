//! The type-erased array.
use vstd::prelude::*;

use crate::element::Element;
use crate::layout::{
    clear_slot,
    lemma_slot_before,
    put_slot,
    shift_down,
    shift_up,
    slot,
};

verus! {

/// Why an operation on an `AnyList` did not take place. A failed operation
/// leaves the list as it was.
#[derive(Debug, Clone, Copy, PartialEq, Eq, Structural)]
pub enum AnyListError {
    /// The element type of the call is not the one the list was created for.
    TypeMismatch,
    /// The index is past the end of the list.
    IndexOutOfBounds,
    /// The list holds no element to pop.
    EmptyPop,
    /// The grown buffer would be larger than an allocation may be.
    AllocationFailure,
}

/// The capacities a list passes through as it grows: 1, 2, 3, 5, 8, 13, ...
pub open spec fn growth_term(k: nat) -> nat
    decreases k,
{
    if k == 0 {
        1
    } else if k == 1 {
        2
    } else {
        growth_term((k - 1) as nat) + growth_term((k - 2) as nat)
    }
}

/// The capacity that precedes `growth_term(k)`; the first term is its own
/// predecessor.
pub open spec fn growth_prior(k: nat) -> nat {
    if k == 0 {
        1
    } else {
        growth_term((k - 1) as nat)
    }
}

/// Each term is the sum of the one before and its predecessor.
pub proof fn lemma_growth_step(k: nat)
    ensures
        growth_term(k + 1) == growth_term(k) + growth_prior(k),
        growth_prior(k + 1) == growth_term(k),
        1 <= growth_prior(k) <= growth_term(k),
    decreases k,
{
    if k > 0 {
        lemma_growth_step((k - 1) as nat);
    }
}

/// A growable array of elements of one type, held as bytes.
pub struct AnyList {
    buf: Vec<u8>,
    len: usize,
    cap: usize,
    prev_cap: usize,
    elem_size: usize,
    tag: u64,
    stage: Ghost<nat>,
}

impl View for AnyList {
    /// The encoded elements, in order.
    type V = Seq<Seq<u8>>;

    closed spec fn view(&self) -> Seq<Seq<u8>> {
        Seq::new(self.len as nat, |k: int| slot(self.buf@, self.elem_size as nat, k))
    }
}

impl AnyList {
    /// The buffer holds `capacity` slots of the element size, the live
    /// elements fit in them, and the capacity is a term of the growth
    /// sequence, with the previous term beside it.
    pub closed spec fn wf(self) -> bool {
        &&& self.elem_size > 0
        &&& self.len <= self.cap
        &&& self.buf@.len() == self.cap * self.elem_size
        &&& self.cap * self.elem_size <= isize::MAX
        &&& self.cap == growth_term(self.stage@)
        &&& self.prev_cap == growth_prior(self.stage@)
    }

    /// Number of element slots allocated.
    pub closed spec fn spec_capacity(self) -> nat {
        self.cap as nat
    }

    /// The capacity before the last growth step.
    pub closed spec fn prior_capacity(self) -> nat {
        self.prev_cap as nat
    }

    /// Bytes per element.
    pub closed spec fn element_size(self) -> nat {
        self.elem_size as nat
    }

    /// Identity of the element type.
    pub closed spec fn element_tag(self) -> u64 {
        self.tag
    }

    /// The list was created for elements of type `T`.
    pub open spec fn holds<T: Element>(self) -> bool {
        self.element_size() == T::byte_size() && self.element_tag() == T::type_tag()
    }

    /// `self` and `other` hold the same element type.
    pub open spec fn same_type(self, other: AnyList) -> bool {
        self.element_size() == other.element_size() && self.element_tag() == other.element_tag()
    }

    /// The elements read as values of type `T`.
    pub open spec fn items<T: Element>(self) -> Seq<T> {
        self@.map_values(|b: Seq<u8>| T::from_bytes(b))
    }

    /// The capacity once there is room for one more element.
    pub open spec fn next_capacity(self) -> nat {
        if self@.len() < self.spec_capacity() {
            self.spec_capacity()
        } else {
            self.spec_capacity() + self.prior_capacity()
        }
    }

    /// Room for one more element can be made within the largest allocation.
    pub open spec fn can_grow(self) -> bool {
        self.next_capacity() * self.element_size() <= isize::MAX
    }

    /// `next` has the capacities that making room for one more element in
    /// `self` leads to.
    pub open spec fn grown_to(self, next: AnyList) -> bool {
        &&& next.spec_capacity() == self.next_capacity()
        &&& next.prior_capacity() == if self@.len() < self.spec_capacity() {
            self.prior_capacity()
        } else {
            self.spec_capacity()
        }
    }

    /// `next` has the capacities of `self`.
    pub open spec fn same_capacity(self, next: AnyList) -> bool {
        next.spec_capacity() == self.spec_capacity() && next.prior_capacity()
            == self.prior_capacity()
    }

    /// The capacity is the first term of the growth sequence that holds
    /// all the elements.
    pub open spec fn fits_snugly(self) -> bool {
        exists|k: nat|
            self.spec_capacity() == growth_term(k) && self.prior_capacity() == growth_prior(k)
                && self@.len() <= growth_term(k) && (k == 0 || growth_prior(k) < self@.len())
    }

    /// The capacity is always a term of the growth sequence 1, 2, 3, 5, 8,
    /// ..., and the prior capacity the term before it.
    pub proof fn lemma_capacity_in_growth_sequence(self)
        requires
            self.wf(),
        ensures
            exists|k: nat|
                self.spec_capacity() == growth_term(k) && self.prior_capacity() == growth_prior(k),
    {
        let k = self.stage@;
        assert(self.spec_capacity() == growth_term(k) && self.prior_capacity() == growth_prior(k));
    }

    /// Capacity never shrinks: every operation either makes room for one
    /// more element or keeps the capacities as they were.
    pub proof fn lemma_capacity_never_shrinks(self, next: AnyList)
        requires
            self.grown_to(next) || self.same_capacity(next),
        ensures
            self.spec_capacity() <= next.spec_capacity(),
    {
    }

    /// Pushing onto a list whose capacity is the first growth term that
    /// holds its elements keeps it so: from an empty list, pushes go through
    /// the capacities 1, 2, 3, 5, 8, 13, ..., each reached only when the one
    /// before is full.
    pub proof fn lemma_push_keeps_snug(self, next: AnyList, bytes: Seq<u8>)
        requires
            self.fits_snugly(),
            next@ == self@.push(bytes),
            self.grown_to(next),
        ensures
            next.fits_snugly(),
    {
        let k = choose|k: nat|
            self.spec_capacity() == growth_term(k) && self.prior_capacity() == growth_prior(k)
                && self@.len() <= growth_term(k) && (k == 0 || growth_prior(k) < self@.len());
        lemma_growth_step(k);
        if self@.len() < self.spec_capacity() {
            assert(next.spec_capacity() == growth_term(k) && next.prior_capacity() == growth_prior(
                k,
            ) && next@.len() <= growth_term(k) && (k == 0 || growth_prior(k) < next@.len()));
        } else {
            assert(next.spec_capacity() == growth_term(k + 1) && next.prior_capacity()
                == growth_prior(k + 1) && next@.len() <= growth_term(k + 1) && growth_prior(k + 1)
                < next@.len());
        }
    }

    proof fn lemma_wf_facts(self)
        requires
            self.wf(),
        ensures
            1 <= self.prev_cap <= self.cap,
            self.cap <= isize::MAX,
    {
        lemma_growth_step(self.stage@);
        assert(self.cap <= self.cap * self.elem_size) by (nonlinear_arith)
            requires
                self.elem_size >= 1,
        ;
    }

    /// An empty list for elements of type `T`, with room for one.
    pub fn new<T: Element>() -> (r: AnyList)
        requires
            T::byte_size() <= isize::MAX,
        ensures
            r.wf(),
            r@.len() == 0,
            r.holds::<T>(),
            r.spec_capacity() == 1,
            r.prior_capacity() == 1,
            r.fits_snugly(),
    {
        let sz = T::size();
        let r = AnyList {
            buf: vec![0u8; sz],
            len: 0,
            cap: 1,
            prev_cap: 1,
            elem_size: sz,
            tag: T::tag(),
            stage: Ghost(0),
        };
        assert(r@ =~= Seq::empty());
        assert(1 * sz == sz);
        assert(growth_term(0) == 1);
        assert(r.spec_capacity() == growth_term(0) && r.prior_capacity() == growth_prior(0)
            && r@.len() <= growth_term(0));
        r
    }

    /// Number of elements.
    pub fn len(&self) -> (r: usize)
        requires
            self.wf(),
        ensures
            r == self@.len(),
    {
        self.len
    }

    /// Number of element slots allocated.
    pub fn capacity(&self) -> (r: usize)
        requires
            self.wf(),
        ensures
            r == self.spec_capacity(),
    {
        self.cap
    }

    /// Grows the buffer, if it is full, to the next capacity of the growth
    /// sequence, copying the live elements over.
    fn make_room(&mut self) -> (r: Result<(), AnyListError>)
        requires
            old(self).wf(),
        ensures
            final(self).wf(),
            final(self)@ == old(self)@,
            final(self).same_type(*old(self)),
            old(self).can_grow() ==> r == Ok::<(), AnyListError>(()) && old(self).grown_to(
                *final(self),
            ) && final(self)@.len() < final(self).spec_capacity(),
            !old(self).can_grow() ==> r == Err::<(), AnyListError>(AnyListError::AllocationFailure)
                && *final(self) == *old(self),
    {
        proof {
            self.lemma_wf_facts();
        }
        if self.len < self.cap {
            return Ok(());
        }
        let sz = self.elem_size;
        let new_cap = self.cap + self.prev_cap;
        let bytes = match new_cap.checked_mul(sz) {
            Some(b) => b,
            None => {
                return Err(AnyListError::AllocationFailure);
            },
        };
        if bytes > isize::MAX as usize {
            return Err(AnyListError::AllocationFailure);
        }
        let live = self.buf.len();
        let mut fresh: Vec<u8> = Vec::with_capacity(bytes);
        let mut j: usize = 0;
        while j < live
            invariant
                j <= live,
                live == self.buf@.len(),
                fresh@.len() == j,
                forall|p: int| 0 <= p < j ==> fresh@[p] == self.buf@[p],
            decreases live - j,
        {
            fresh.push(self.buf[j]);
            j += 1;
        }
        assert(live <= bytes) by (nonlinear_arith)
            requires
                live == self.cap * sz,
                bytes == new_cap * sz,
                self.cap <= new_cap,
        ;
        while j < bytes
            invariant
                live <= j <= bytes,
                live == self.buf@.len(),
                fresh@.len() == j,
                forall|p: int| 0 <= p < live ==> fresh@[p] == self.buf@[p],
            decreases bytes - j,
        {
            fresh.push(0u8);
            j += 1;
        }
        let ghost before = *self;
        self.buf = fresh;
        self.prev_cap = self.cap;
        self.cap = new_cap;
        self.stage = Ghost(self.stage@ + 1);
        proof {
            lemma_growth_step(before.stage@);
            assert forall|k: int| 0 <= k < self.len implies slot(self.buf@, sz as nat, k) == slot(
                before.buf@,
                sz as nat,
                k,
            ) by {
                lemma_slot_before(sz as nat, k, self.len as int);
                assert(slot(self.buf@, sz as nat, k) =~= slot(before.buf@, sz as nat, k));
            }
            assert(self@ =~= before@);
        }
        Ok(())
    }

    /// Appends `value`, growing the buffer first when it is full.
    pub fn push<T: Element>(&mut self, value: T) -> (r: Result<(), AnyListError>)
        requires
            old(self).wf(),
        ensures
            final(self).wf(),
            final(self).same_type(*old(self)),
            !old(self).holds::<T>() ==> r == Err::<(), AnyListError>(AnyListError::TypeMismatch)
                && *final(self) == *old(self),
            old(self).holds::<T>() && !old(self).can_grow() ==> r == Err::<(), AnyListError>(
                AnyListError::AllocationFailure,
            ) && *final(self) == *old(self),
            old(self).holds::<T>() && old(self).can_grow() ==> r == Ok::<(), AnyListError>(())
                && final(self)@ == old(self)@.push(value.to_bytes()) && final(self).items::<T>()
                == old(self).items::<T>().push(value) && old(self).grown_to(*final(self)),
    {
        if T::size() != self.elem_size || T::tag() != self.tag {
            return Err(AnyListError::TypeMismatch);
        }
        let room = self.make_room();
        if room.is_err() {
            return room;
        }
        let ghost before = self@;
        let bytes = value.encode();
        proof {
            T::lemma_round_trip(value);
        }
        put_slot(&mut self.buf, self.elem_size, self.cap, self.len, &bytes);
        self.len = self.len + 1;
        assert(self@ =~= before.push(value.to_bytes()));
        assert(self.items::<T>() =~= before.map_values(|b: Seq<u8>| T::from_bytes(b)).push(value));
        Ok(())
    }

    /// Inserts `value` at `index`, moving the elements from `index` on one
    /// place up; grows the buffer first when it is full.
    pub fn insert<T: Element>(&mut self, index: usize, value: T) -> (r: Result<(), AnyListError>)
        requires
            old(self).wf(),
        ensures
            final(self).wf(),
            final(self).same_type(*old(self)),
            !old(self).holds::<T>() ==> r == Err::<(), AnyListError>(AnyListError::TypeMismatch)
                && *final(self) == *old(self),
            old(self).holds::<T>() && index > old(self)@.len() ==> r == Err::<(), AnyListError>(
                AnyListError::IndexOutOfBounds,
            ) && *final(self) == *old(self),
            old(self).holds::<T>() && index <= old(self)@.len() && !old(self).can_grow() ==> r
                == Err::<(), AnyListError>(AnyListError::AllocationFailure) && *final(self)
                == *old(self),
            old(self).holds::<T>() && index <= old(self)@.len() && old(self).can_grow() ==> r
                == Ok::<(), AnyListError>(()) && final(self)@ == old(self)@.insert(
                index as int,
                value.to_bytes(),
            ) && final(self).items::<T>() == old(self).items::<T>().insert(index as int, value)
                && old(self).grown_to(*final(self)),
    {
        if T::size() != self.elem_size || T::tag() != self.tag {
            return Err(AnyListError::TypeMismatch);
        }
        if index > self.len {
            return Err(AnyListError::IndexOutOfBounds);
        }
        let room = self.make_room();
        if room.is_err() {
            return room;
        }
        let ghost before = self@;
        let bytes = value.encode();
        proof {
            T::lemma_round_trip(value);
        }
        shift_up(&mut self.buf, self.elem_size, self.cap, index, self.len);
        put_slot(&mut self.buf, self.elem_size, self.cap, index, &bytes);
        self.len = self.len + 1;
        assert(self@ =~= before.insert(index as int, value.to_bytes()));
        assert(self.items::<T>() =~= before.map_values(|b: Seq<u8>| T::from_bytes(b)).insert(
            index as int,
            value,
        ));
        Ok(())
    }

    /// Removes the element at `index`, moving the ones after it one place
    /// down, and zeroes the slot that falls free.
    fn remove_slot(&mut self, index: usize)
        requires
            old(self).wf(),
            index < old(self)@.len(),
        ensures
            final(self).wf(),
            final(self).same_type(*old(self)),
            old(self).same_capacity(*final(self)),
            final(self)@ == old(self)@.remove(index as int),
    {
        let ghost before = self@;
        let last = self.len - 1;
        shift_down(&mut self.buf, self.elem_size, self.cap, index, last);
        clear_slot(&mut self.buf, self.elem_size, self.cap, last);
        self.len = last;
        assert(self@ =~= before.remove(index as int));
    }

    /// Reads the element at `index` as a `T`.
    fn read<T: Element>(&self, index: usize) -> (r: T)
        requires
            self.wf(),
            self.holds::<T>(),
            index < self@.len(),
        ensures
            r == self.items::<T>()[index as int],
    {
        proof {
            lemma_slot_before(self.elem_size as nat, index as int, self.cap as int);
        }
        T::decode(&self.buf, index * self.elem_size)
    }

    /// Removes the last element.
    pub fn untyped_pop(&mut self) -> (r: Result<(), AnyListError>)
        requires
            old(self).wf(),
        ensures
            final(self).wf(),
            final(self).same_type(*old(self)),
            old(self).same_capacity(*final(self)),
            old(self)@.len() == 0 ==> r == Err::<(), AnyListError>(AnyListError::EmptyPop)
                && *final(self) == *old(self),
            old(self)@.len() > 0 ==> r == Ok::<(), AnyListError>(()) && final(self)@ == old(self)@.drop_last(),
    {
        if self.len == 0 {
            return Err(AnyListError::EmptyPop);
        }
        let ghost before = self@;
        self.remove_slot(self.len - 1);
        assert(self@ =~= before.drop_last());
        Ok(())
    }

    /// Removes the element at `index`, moving the ones after it one place
    /// down.
    pub fn untyped_remove(&mut self, index: usize) -> (r: Result<(), AnyListError>)
        requires
            old(self).wf(),
        ensures
            final(self).wf(),
            final(self).same_type(*old(self)),
            old(self).same_capacity(*final(self)),
            index >= old(self)@.len() ==> r == Err::<(), AnyListError>(
                AnyListError::IndexOutOfBounds,
            ) && *final(self) == *old(self),
            index < old(self)@.len() ==> r == Ok::<(), AnyListError>(()) && final(self)@ == old(self)@.remove(index as int),
    {
        if index >= self.len {
            return Err(AnyListError::IndexOutOfBounds);
        }
        self.remove_slot(index);
        Ok(())
    }

    /// Removes the last element and returns it as a `T`.
    pub fn pop<T: Element>(&mut self) -> (r: Result<T, AnyListError>)
        requires
            old(self).wf(),
        ensures
            final(self).wf(),
            final(self).same_type(*old(self)),
            old(self).same_capacity(*final(self)),
            !old(self).holds::<T>() ==> r == Err::<T, AnyListError>(AnyListError::TypeMismatch)
                && *final(self) == *old(self),
            old(self).holds::<T>() && old(self)@.len() == 0 ==> r == Err::<T, AnyListError>(
                AnyListError::EmptyPop,
            ) && *final(self) == *old(self),
            old(self).holds::<T>() && old(self)@.len() > 0 ==> r == Ok::<T, AnyListError>(
                old(self).items::<T>().last(),
            ) && final(self)@ == old(self)@.drop_last() && final(self).items::<T>() == old(self).items::<T>().drop_last(),
    {
        if T::size() != self.elem_size || T::tag() != self.tag {
            return Err(AnyListError::TypeMismatch);
        }
        if self.len == 0 {
            return Err(AnyListError::EmptyPop);
        }
        let ghost before = self@;
        let value = self.read::<T>(self.len - 1);
        self.remove_slot(self.len - 1);
        assert(self@ =~= before.drop_last());
        assert(self.items::<T>() =~= before.map_values(|b: Seq<u8>| T::from_bytes(b)).drop_last());
        Ok(value)
    }

    /// Removes the element at `index`, moving the ones after it one place
    /// down, and returns it as a `T`.
    pub fn remove<T: Element>(&mut self, index: usize) -> (r: Result<T, AnyListError>)
        requires
            old(self).wf(),
        ensures
            final(self).wf(),
            final(self).same_type(*old(self)),
            old(self).same_capacity(*final(self)),
            !old(self).holds::<T>() ==> r == Err::<T, AnyListError>(AnyListError::TypeMismatch)
                && *final(self) == *old(self),
            old(self).holds::<T>() && index >= old(self)@.len() ==> r == Err::<T, AnyListError>(
                AnyListError::IndexOutOfBounds,
            ) && *final(self) == *old(self),
            old(self).holds::<T>() && index < old(self)@.len() ==> r == Ok::<T, AnyListError>(
                old(self).items::<T>()[index as int],
            ) && final(self)@ == old(self)@.remove(index as int) && final(self).items::<T>()
                == old(self).items::<T>().remove(index as int),
    {
        if T::size() != self.elem_size || T::tag() != self.tag {
            return Err(AnyListError::TypeMismatch);
        }
        if index >= self.len {
            return Err(AnyListError::IndexOutOfBounds);
        }
        let ghost before = self@;
        let value = self.read::<T>(index);
        self.remove_slot(index);
        assert(self.items::<T>() =~= before.map_values(|b: Seq<u8>| T::from_bytes(b)).remove(
            index as int,
        ));
        Ok(value)
    }

    /// The element at `index`, as a `T`.
    pub fn get<T: Element>(&self, index: usize) -> (r: Result<T, AnyListError>)
        requires
            self.wf(),
        ensures
            !self.holds::<T>() ==> r == Err::<T, AnyListError>(AnyListError::TypeMismatch),
            self.holds::<T>() && index >= self@.len() ==> r == Err::<T, AnyListError>(
                AnyListError::IndexOutOfBounds,
            ),
            self.holds::<T>() && index < self@.len() ==> r == Ok::<T, AnyListError>(
                self.items::<T>()[index as int],
            ),
    {
        if T::size() != self.elem_size || T::tag() != self.tag {
            return Err(AnyListError::TypeMismatch);
        }
        if index >= self.len {
            return Err(AnyListError::IndexOutOfBounds);
        }
        Ok(self.read::<T>(index))
    }

    /// Overwrites the element at `index` with `value`.
    pub fn set<T: Element>(&mut self, index: usize, value: T) -> (r: Result<(), AnyListError>)
        requires
            old(self).wf(),
        ensures
            final(self).wf(),
            final(self).same_type(*old(self)),
            old(self).same_capacity(*final(self)),
            !old(self).holds::<T>() ==> r == Err::<(), AnyListError>(AnyListError::TypeMismatch)
                && *final(self) == *old(self),
            old(self).holds::<T>() && index >= old(self)@.len() ==> r == Err::<(), AnyListError>(
                AnyListError::IndexOutOfBounds,
            ) && *final(self) == *old(self),
            old(self).holds::<T>() && index < old(self)@.len() ==> r == Ok::<(), AnyListError>(())
                && final(self)@ == old(self)@.update(index as int, value.to_bytes()) && final(self).items::<T>() == old(self).items::<T>().update(index as int, value),
    {
        if T::size() != self.elem_size || T::tag() != self.tag {
            return Err(AnyListError::TypeMismatch);
        }
        if index >= self.len {
            return Err(AnyListError::IndexOutOfBounds);
        }
        let ghost before = self@;
        let bytes = value.encode();
        proof {
            T::lemma_round_trip(value);
        }
        put_slot(&mut self.buf, self.elem_size, self.cap, index, &bytes);
        assert(self@ =~= before.update(index as int, value.to_bytes()));
        assert(self.items::<T>() =~= before.map_values(|b: Seq<u8>| T::from_bytes(b)).update(
            index as int,
            value,
        ));
        Ok(())
    }

    /// All elements, in order, as values of type `T`.
    pub fn as_slice<T: Element>(&self) -> (r: Result<Vec<T>, AnyListError>)
        requires
            self.wf(),
        ensures
            !self.holds::<T>() ==> r == Err::<Vec<T>, AnyListError>(AnyListError::TypeMismatch),
            self.holds::<T>() ==> r is Ok && r->Ok_0@ == self.items::<T>(),
    {
        if T::size() != self.elem_size || T::tag() != self.tag {
            return Err(AnyListError::TypeMismatch);
        }
        let mut out: Vec<T> = Vec::with_capacity(self.len);
        let mut k: usize = 0;
        while k < self.len
            invariant
                self.wf(),
                self.holds::<T>(),
                k <= self.len,
                out@ == self.items::<T>().subrange(0, k as int),
            decreases self.len - k,
        {
            let v = self.read::<T>(k);
            out.push(v);
            k += 1;
            assert(out@ =~= self.items::<T>().subrange(0, k as int));
        }
        assert(out@ =~= self.items::<T>());
        Ok(out)
    }
}

} // verus!
