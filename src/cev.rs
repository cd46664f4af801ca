use crate::alloc_err::{TryReserveError, TryReserveErrorKind};
use crate::raw_cev::{array_layout, fits_layout, grown_capacity, is_zst, zero_sized, RawCev};
use vstd::prelude::*;

verus! {

/// Whether an amortized growth of a buffer of `cap` slots of `T`, which
/// must then hold `required` values, succeeds.
pub open spec fn growth_fits<T>(cap: nat, required: nat) -> bool {
    &&& !zero_sized::<T>()
    &&& required <= usize::MAX
    &&& fits_layout(
        grown_capacity(cap, required, vstd::layout::size_of::<T>()),
        vstd::layout::size_of::<T>(),
    )
}

/// The capacity after making room for `additional` more values beside
/// `len` held in a buffer of `cap` slots of `T`.
pub open spec fn reserved_capacity<T>(cap: nat, len: nat, additional: nat) -> nat {
    if additional > cap - len {
        grown_capacity(cap, len + additional, vstd::layout::size_of::<T>())
    } else {
        cap
    }
}

/// Relies on `Vec::capacity`: the number of values the vector can hold
/// without reallocating, which is at least its length.
#[verifier::external_body]
fn vec_capacity<T>(v: &Vec<T>) -> (r: usize)
    ensures
        r >= v@.len(),
{
    v.capacity()
}

/// The data start of a buffer of `cap` slots of `T` that holds `len`
/// values.
pub open spec fn data_start_for<T>(cap: nat, len: nat) -> nat {
    if zero_sized::<T>() || cap == len {
        0
    } else if len == 0 {
        (cap - 1) as nat
    } else {
        (cap - len) as nat
    }
}

/// An array of values on the heap that grows from its end toward its
/// beginning: `push` adds a value at the front, and the spare capacity
/// lies before the first value.
///
/// Its buffer keeps the `len` values in the slots from the data start on,
/// in order. Values of a type that takes no memory are kept in a `Vec`,
/// which allocates nothing for them.
pub struct Cev<T> {
    buf: RawCev<T>,
    len: usize,
    zst_values: Vec<T>,
}

impl<T> View for Cev<T> {
    type V = Seq<T>;

    closed spec fn view(&self) -> Seq<T> {
        if zero_sized::<T>() {
            self.zst_values@
        } else {
            self.buf.live(self.len as nat)
        }
    }
}

impl<T> Cev<T> {
    /// The invariant of the array.
    pub closed spec fn wf(&self) -> bool {
        &&& self.buf.holds(self.len as nat)
        &&& zero_sized::<T>() ==> self.zst_values@.len() == self.len
        &&& !zero_sized::<T>() ==> self.zst_values@.len() == 0
    }

    /// Number of values the array can hold without growing.
    pub closed spec fn spec_capacity(&self) -> nat {
        self.buf.spec_capacity()
    }

    /// The data start, as a slot index from the start of the allocation.
    pub closed spec fn offset(&self) -> nat {
        self.buf.offset()
    }

    /// What slot `i` of the buffer holds.
    pub closed spec fn slot(&self, i: int) -> Option<T> {
        self.buf.slot(i)
    }

    /// Number of slots the buffer has allocated.
    pub closed spec fn allocated_slots(&self) -> nat {
        self.buf.slots_view().len()
    }

    /// Whether there is room, or room can be made, for `additional` more
    /// values.
    pub open spec fn room_for(&self, additional: nat) -> bool {
        additional <= self.spec_capacity() - self@.len() || growth_fits::<T>(
            self.spec_capacity(),
            self@.len() + additional,
        )
    }

    proof fn lemma_wf(&self)
        requires
            self.wf(),
        ensures
            self@.len() == self.len,
            self.len <= self.spec_capacity(),
            self.spec_capacity() <= usize::MAX,
            zero_sized::<T>() ==> self.spec_capacity() == usize::MAX,
    {
    }

    /// A new, empty array, without an allocation.
    pub fn new() -> (r: Self)
        ensures
            r.wf(),
            r@ == Seq::<T>::empty(),
            r.spec_capacity() == if zero_sized::<T>() {
                usize::MAX as nat
            } else {
                0
            },
            r.offset() == 0,
    {
        let r = Cev { buf: RawCev::new(), len: 0, zst_values: Vec::new() };
        assert(r@ =~= Seq::<T>::empty());
        r
    }

    /// A new, empty array with room for `capacity` values, and its data
    /// start on the last slot; no allocation where `capacity` is 0 or the
    /// values take no memory.
    pub fn with_capacity(capacity: usize) -> (r: Self)
        requires
            !zero_sized::<T>() ==> fits_layout(capacity as nat, vstd::layout::size_of::<T>()),
        ensures
            r.wf(),
            r@ == Seq::<T>::empty(),
            r.spec_capacity() == if zero_sized::<T>() {
                usize::MAX as nat
            } else {
                capacity as nat
            },
            r.offset() == if zero_sized::<T>() || capacity == 0 {
                0
            } else {
                capacity - 1
            },
    {
        let r = Cev { buf: RawCev::with_capacity(capacity), len: 0, zst_values: Vec::new() };
        assert(r@ =~= Seq::<T>::empty());
        r
    }

    /// Number of values in the array.
    pub fn len(&self) -> (r: usize)
        requires
            self.wf(),
        ensures
            r == self@.len(),
    {
        proof {
            self.lemma_wf();
        }
        self.len
    }

    /// Whether the array holds no value.
    pub fn is_empty(&self) -> (r: bool)
        requires
            self.wf(),
        ensures
            r == (self@.len() == 0),
    {
        self.len() == 0
    }

    /// Number of values the array can hold without growing: `usize::MAX`
    /// for values that take no memory.
    pub fn capacity(&self) -> (r: usize)
        requires
            self.wf(),
        ensures
            r == self.spec_capacity(),
            r >= self@.len(),
            zero_sized::<T>() ==> r == usize::MAX,
            !zero_sized::<T>() ==> fits_layout(r as nat, vstd::layout::size_of::<T>()),
    {
        proof {
            self.lemma_wf();
        }
        self.buf.capacity()
    }

    /// The data start, as a slot index from the start of the allocation:
    /// `capacity - len`, or `capacity - 1` for an empty array; 0 where
    /// there is no allocation or the values take no memory.
    pub fn as_ptr(&self) -> (r: usize)
        requires
            self.wf(),
        ensures
            r == self.offset(),
            r == data_start_for::<T>(self.spec_capacity(), self@.len()),
    {
        proof {
            lemma_data_start(self);
        }
        self.buf.ptr()
    }

    /// The data start, as `as_ptr` gives it.
    pub fn as_mut_ptr(&mut self) -> (r: usize)
        requires
            old(self).wf(),
        ensures
            r == old(self).offset(),
            *final(self) == *old(self),
    {
        self.buf.ptr()
    }

    /// The start of the allocation, as a slot index: always 0.
    pub fn base_ptr(&self) -> (r: usize)
        ensures
            r == 0,
    {
        self.buf.base_ptr()
    }

    /// Where the data start goes for `new_len` values: at the start of
    /// the allocation where they fill it, on its last slot where there are
    /// none, else `capacity - new_len` slots in; at 0 for values that take
    /// no memory.
    fn mov_ptr(&self, new_len: usize) -> (r: usize)
        requires
            self.buf.wf(),
            new_len <= self.spec_capacity(),
        ensures
            r == data_start_for::<T>(self.spec_capacity(), new_len as nat),
    {
        let cap = self.buf.capacity();
        if is_zst::<T>() || cap == new_len {
            0
        } else if new_len == 0 {
            cap - 1
        } else {
            cap - new_len
        }
    }

    /// Adds `value` at the front of the array, growing the buffer where it
    /// is full.
    pub fn push(&mut self, value: T)
        requires
            old(self).wf(),
            old(self).room_for(1),
        ensures
            final(self).wf(),
            final(self)@ == seq![value] + old(self)@,
            final(self).spec_capacity() == reserved_capacity::<T>(
                old(self).spec_capacity(),
                old(self)@.len(),
                1,
            ),
    {
        proof {
            self.lemma_wf();
        }
        if is_zst::<T>() {
            self.zst_values.insert(0, value);
            self.len = self.len + 1;
            assert(self@ =~= seq![value] + old(self)@);
        } else {
            if self.len == self.buf.capacity() {
                self.buf.reserve_for_push(self.len);
            }
            let ghost grown = self.buf;
            if self.len != 0 {
                self.buf.mov_ptr_sub(1);
            }
            let at = self.buf.ptr();
            self.buf.set_slot(at, Some(value));
            self.len = self.len + 1;
            proof {
                let cap = self.buf.spec_capacity();
                assert forall|j: int| 0 <= j < cap implies (#[trigger] self.buf.slot(j) is Some
                    <==> at <= j < at + self.len) by {
                    if j != at {
                        assert(self.buf.slot(j) == grown.slot(j));
                    }
                }
                assert forall|i: int| 0 <= i < self.len implies #[trigger] self@[i] == (seq![value]
                    + old(self)@)[i] by {
                    if i > 0 {
                        assert(self.buf.slot(at + i) == grown.slot(grown.offset() + i - 1));
                    }
                }
                assert(self@ =~= seq![value] + old(self)@);
            }
        }
    }

    /// Removes the first value of the array and returns it; `None` where
    /// the array is empty.
    pub fn pop(&mut self) -> (r: Option<T>)
        requires
            old(self).wf(),
        ensures
            final(self).wf(),
            final(self).spec_capacity() == old(self).spec_capacity(),
            old(self)@.len() == 0 ==> r is None && final(self)@ == old(self)@,
            old(self)@.len() > 0 ==> r == Some(old(self)@[0]) && final(self)@ == old(self)@.drop_first(),
    {
        proof {
            self.lemma_wf();
        }
        if self.len == 0 {
            None
        } else if is_zst::<T>() {
            let value = self.zst_values.remove(0);
            self.len = self.len - 1;
            assert(self@ =~= old(self)@.drop_first());
            Some(value)
        } else {
            self.len = self.len - 1;
            let at = self.buf.ptr();
            if self.len != 0 {
                self.buf.mov_ptr_add(1);
            }
            let value = self.buf.take(at);
            proof {
                let cap = self.buf.spec_capacity();
                let off = self.buf.offset();
                assert forall|j: int| 0 <= j < cap implies (#[trigger] self.buf.slot(j) is Some
                    <==> off <= j < off + self.len) by {
                    if j != at {
                        assert(self.buf.slot(j) == old(self).buf.slot(j));
                    }
                }
                assert forall|i: int| 0 <= i < self.len implies #[trigger] self@[i]
                    == old(self)@.drop_first()[i] by {
                    assert(self.buf.slot(off + i) == old(self).buf.slot(at + 1 + i));
                }
                assert(self@ =~= old(self)@.drop_first());
            }
            value
        }
    }

    /// Inserts `element` at position `index`, moving the `index` values
    /// before it one slot down, toward the spare capacity.
    pub fn insert(&mut self, index: usize, element: T)
        requires
            old(self).wf(),
            index <= old(self)@.len(),
            old(self).room_for(1),
        ensures
            final(self).wf(),
            final(self)@ == old(self)@.insert(index as int, element),
            final(self).spec_capacity() == reserved_capacity::<T>(
                old(self).spec_capacity(),
                old(self)@.len(),
                1,
            ),
    {
        proof {
            self.lemma_wf();
        }
        if is_zst::<T>() {
            self.zst_values.insert(index, element);
            self.len = self.len + 1;
            return;
        }
        let len = self.len;
        if len == self.buf.capacity() {
            self.buf.reserve(len, 1);
        }
        let ghost grown = self.buf;
        let ghost cap = grown.spec_capacity();
        if index == 0 {
            if len != 0 {
                self.buf.mov_ptr_sub(1);
            }
            assert(grown.slot(self.buf.offset() as int) is None);
        } else {
            let p = self.buf.ptr();
            let mut k: usize = 0;
            while k < index
                invariant
                    !zero_sized::<T>(),
                    self.len == len,
                    self.zst_values@.len() == 0,
                    0 < index <= len < cap,
                    p == grown.offset() == cap - len,
                    k <= index,
                    self.buf.wf(),
                    self.buf.offset() == p,
                    self.buf.spec_capacity() == cap,
                    forall|j: int|
                        0 <= j < cap ==> #[trigger] self.buf.slot(j) == if j < p - 1 {
                            grown.slot(j)
                        } else if j < p - 1 + k {
                            grown.slot(j + 1)
                        } else if j == p - 1 + k {
                            None
                        } else {
                            grown.slot(j)
                        },
                decreases index - k,
            {
                let ghost before = self.buf;
                let value = self.buf.take(p + k);
                self.buf.set_slot(p - 1 + k, value);
                k = k + 1;
                assert forall|j: int| 0 <= j < cap implies #[trigger] self.buf.slot(j) == if j < p
                    - 1 {
                    grown.slot(j)
                } else if j < p - 1 + k {
                    grown.slot(j + 1)
                } else if j == p - 1 + k {
                    None
                } else {
                    grown.slot(j)
                } by {
                    if j != p - 2 + k && j != p - 1 + k {
                        assert(self.buf.slot(j) == before.slot(j));
                    }
                }
            }
            self.buf.mov_ptr_sub(1);
        }
        let ghost off = self.buf.offset();
        assert(forall|j: int|
            0 <= j < cap ==> #[trigger] self.buf.slot(j) == if off <= j < off + index {
                grown.slot(j + 1)
            } else if j == off + index {
                None
            } else {
                grown.slot(j)
            });
        let at = self.buf.ptr() + index;
        self.buf.set_slot(at, Some(element));
        self.len = len + 1;
        proof {
            assert forall|j: int| 0 <= j < cap implies (#[trigger] self.buf.slot(j) is Some
                <==> off <= j < off + self.len) by {
                if j != at {
                    if off <= j < off + index {
                        assert(grown.slot(j + 1) is Some);
                    } else if j > off + index {
                        assert(grown.slot(j) is Some <==> j < off + self.len);
                    } else {
                        assert(grown.slot(j) is None);
                    }
                }
            }
            assert forall|i: int| 0 <= i < self.len implies #[trigger] self@[i] == old(self)@.insert(
                index as int,
                element,
            )[i] by {
                if i < index {
                    assert(self.buf.slot(off + i) == grown.slot(grown.offset() + i));
                } else if i > index {
                    assert(self.buf.slot(off + i) == grown.slot(grown.offset() + i - 1));
                }
            }
            assert(self@ =~= old(self)@.insert(index as int, element));
        }
    }

    /// Shortens the array to its last `len` values, dropping those before
    /// them; does nothing where `len` is not below the length.
    pub fn truncate(&mut self, len: usize)
        requires
            old(self).wf(),
        ensures
            final(self).wf(),
            final(self).spec_capacity() == old(self).spec_capacity(),
            len >= old(self)@.len() ==> final(self)@ == old(self)@,
            len < old(self)@.len() ==> final(self)@ == old(self)@.subrange(
                old(self)@.len() - len,
                old(self)@.len() as int,
            ),
    {
        proof {
            self.lemma_wf();
        }
        if len >= self.len {
            return;
        }
        if is_zst::<T>() {
            let kept = self.zst_values.split_off(self.len - len);
            self.zst_values = kept;
            self.len = len;
            return;
        }
        let remaining_len = self.len - len;
        let p = self.buf.ptr();
        if len != 0 {
            self.buf.mov_ptr_add(remaining_len);
        } else {
            self.buf.mov_ptr_add(remaining_len - 1);
        }
        self.len = len;
        let ghost moved = self.buf;
        let ghost cap = moved.spec_capacity();
        let mut k: usize = 0;
        while k < remaining_len
            invariant
                !zero_sized::<T>(),
                self.len == len,
                self.zst_values@.len() == 0,
                k <= remaining_len,
                p == old(self).buf.offset(),
                p + remaining_len + len <= cap,
                self.buf.wf(),
                self.buf.offset() == moved.offset(),
                self.buf.spec_capacity() == cap,
                forall|j: int|
                    0 <= j < cap ==> #[trigger] self.buf.slot(j) == if p <= j < p + k {
                        None
                    } else {
                        moved.slot(j)
                    },
            decreases remaining_len - k,
        {
            let ghost before = self.buf;
            let _ = self.buf.take(p + k);
            k = k + 1;
            assert forall|j: int| 0 <= j < cap implies #[trigger] self.buf.slot(j) == if p <= j < p
                + k {
                None
            } else {
                moved.slot(j)
            } by {
                if j != p + k - 1 {
                    assert(self.buf.slot(j) == before.slot(j));
                }
            }
        }
        proof {
            let off = self.buf.offset();
            assert forall|j: int| 0 <= j < cap implies (#[trigger] self.buf.slot(j) is Some
                <==> off <= j < off + self.len) by {
                assert(moved.slot(j) == old(self).buf.slot(j));
            }
            assert forall|i: int| 0 <= i < self.len implies #[trigger] self@[i] == old(
                self,
            )@.subrange(old(self)@.len() - len, old(self)@.len() as int)[i] by {
                assert(self.buf.slot(off + i) == old(self).buf.slot(p + remaining_len + i));
            }
            assert(self@ =~= old(self)@.subrange(old(self)@.len() - len, old(self)@.len() as int));
        }
    }

    /// Drops every value of the array; the data start goes back to the
    /// last slot.
    pub fn clear(&mut self)
        requires
            old(self).wf(),
        ensures
            final(self).wf(),
            final(self)@ == Seq::<T>::empty(),
            final(self).spec_capacity() == old(self).spec_capacity(),
    {
        self.truncate(0);
        proof {
            self.lemma_wf();
        }
        assert(self@ =~= Seq::<T>::empty());
    }

    /// Makes room for `additional` more values; does nothing where there
    /// is room already, else grows the buffer to twice its capacity, or to
    /// what is required, or to the minimum for the element size, whichever
    /// is largest.
    pub fn reserve(&mut self, additional: usize)
        requires
            old(self).wf(),
            old(self).room_for(additional as nat),
        ensures
            final(self).wf(),
            final(self)@ == old(self)@,
            final(self).spec_capacity() == reserved_capacity::<T>(
                old(self).spec_capacity(),
                old(self)@.len(),
                additional as nat,
            ),
    {
        proof {
            self.lemma_wf();
        }
        if !is_zst::<T>() {
            self.buf.reserve(self.len, additional);
        }
    }

    /// Makes room for `additional` more values as `reserve` does, or
    /// returns a capacity overflow, and changes nothing, where the
    /// capacity that growth needs cannot be laid out.
    pub fn try_reserve(&mut self, additional: usize) -> (r: Result<(), TryReserveError>)
        requires
            old(self).wf(),
        ensures
            final(self).wf(),
            final(self)@ == old(self)@,
            r is Ok <==> old(self).room_for(additional as nat),
            r is Ok ==> final(self).spec_capacity() == reserved_capacity::<T>(
                old(self).spec_capacity(),
                old(self)@.len(),
                additional as nat,
            ),
            r matches Err(e) ==> e.kind is CapacityOverflow && final(self).spec_capacity()
                == old(self).spec_capacity(),
    {
        proof {
            self.lemma_wf();
        }
        if is_zst::<T>() {
            if additional > usize::MAX - self.len {
                return Err(TryReserveError { kind: TryReserveErrorKind::CapacityOverflow });
            }
            return Ok(());
        }
        self.buf.try_reserve(self.len, additional)
    }

    /// Moves every value of `other` to the front of this array, keeping
    /// their order; `other` is left empty, with its capacity kept for
    /// reuse.
    pub fn append(&mut self, other: &mut Self)
        requires
            old(self).wf(),
            old(other).wf(),
            old(self).room_for(old(other)@.len()),
        ensures
            final(self).wf(),
            final(other).wf(),
            final(self)@ == old(other)@ + old(self)@,
            final(other)@ == Seq::<T>::empty(),
            final(other).spec_capacity() == old(other).spec_capacity(),
            final(self).spec_capacity() == reserved_capacity::<T>(
                old(self).spec_capacity(),
                old(self)@.len(),
                old(other)@.len(),
            ),
    {
        proof {
            self.lemma_wf();
            other.lemma_wf();
        }
        if is_zst::<T>() {
            let mut front: Vec<T> = Vec::new();
            core::mem::swap(&mut front, &mut other.zst_values);
            front.append(&mut self.zst_values);
            self.zst_values = front;
            self.len = self.len + other.len;
            other.len = 0;
            assert(self@ =~= old(other)@ + old(self)@);
            assert(other@ =~= Seq::<T>::empty());
            return;
        }
        let len = self.len;
        let count = other.len;
        self.buf.reserve(len, count);
        if count == 0 {
            assert(self@ =~= old(other)@ + old(self)@);
            assert(other@ =~= Seq::<T>::empty());
            return;
        }
        let ghost grown = self.buf;
        let new_len = len + count;
        let cap = self.buf.capacity();
        let q = self.mov_ptr(new_len);
        self.buf.mov_ptr(q);
        let op = other.buf.ptr();
        let ghost drained = other.buf;
        let mut k: usize = 0;
        while k < count
            invariant
                !zero_sized::<T>(),
                0 < count,
                new_len == len + count <= cap,
                q == cap - new_len,
                grown.holds(len as nat),
                grown.spec_capacity() == cap,
                drained.holds(count as nat),
                drained.offset() == op,
                self.len == len,
                other.len == count,
                self.zst_values@.len() == 0,
                other.zst_values@.len() == 0,
                k <= count,
                self.buf.wf(),
                self.buf.offset() == q,
                self.buf.spec_capacity() == cap,
                other.buf.wf(),
                other.buf.offset() == op,
                other.buf.spec_capacity() == drained.spec_capacity(),
                forall|j: int|
                    0 <= j < cap ==> #[trigger] self.buf.slot(j) == if q <= j < q + k {
                        drained.slot(op + j - q)
                    } else if q + k <= j < q + count {
                        None
                    } else {
                        grown.slot(j)
                    },
                forall|j: int|
                    0 <= j < drained.spec_capacity() ==> #[trigger] other.buf.slot(j) == if op <= j
                        < op + k {
                        None
                    } else {
                        drained.slot(j)
                    },
            decreases count - k,
        {
            assert(grown.slot(q + k) is None);
            let value = other.buf.take(op + k);
            self.buf.set_slot(q + k, value);
            k = k + 1;
        }
        self.len = new_len;
        other.len = 0;
        let other_cap = other.buf.capacity();
        let rest = other.mov_ptr(0);
        other.buf.mov_ptr(rest);
        proof {
            assert forall|j: int| 0 <= j < cap implies (#[trigger] self.buf.slot(j) is Some
                <==> q <= j < q + new_len) by {
                if q <= j < q + count {
                    assert(drained.slot(op + j - q) is Some);
                } else {
                    assert(grown.slot(j) is Some <==> q + count <= j < cap);
                }
            }
            assert forall|j: int| 0 <= j < other_cap implies #[trigger] other.buf.slot(j) is None by {
                assert(drained.slot(j) is Some <==> op <= j < op + count);
            }
            assert forall|i: int| 0 <= i < new_len implies #[trigger] self@[i] == (old(other)@
                + old(self)@)[i] by {
                if i < count {
                    assert(self.buf.slot(q + i) == drained.slot(op + i));
                } else {
                    assert(self.buf.slot(q + i) == grown.slot(grown.offset() + i - count));
                }
            }
            assert(self@ =~= old(other)@ + old(self)@);
            assert(other@ =~= Seq::<T>::empty());
        }
    }

    /// An array of the values of `vec`, in order, with the capacity of
    /// `vec` and the values at the high end of the buffer.
    pub fn from_vec(vec: Vec<T>) -> (r: Self)
        requires
            !zero_sized::<T>() ==> fits_layout(vec@.len(), vstd::layout::size_of::<T>()),
        ensures
            r.wf(),
            r@ == vec@,
            zero_sized::<T>() ==> r.spec_capacity() == usize::MAX,
            r.spec_capacity() >= vec@.len(),
    {
        if is_zst::<T>() {
            let len = vec.len();
            return Cev { buf: RawCev::new(), len, zst_values: vec };
        }
        let len = vec.len();
        let mut capacity = vec_capacity(&vec);
        // A vector never takes more than `isize::MAX` bytes, so this keeps
        // its capacity; the check is what lets the buffer's layout bound be
        // proved here.
        match array_layout::<T>(capacity) {
            Ok(_) => {},
            Err(_) => {
                capacity = len;
            },
        }
        Self::from_values(vec, capacity)
    }

    /// An array of the values of `vec`, in order, in a buffer of
    /// `capacity` slots, with the values at its high end: the conversion
    /// from a vector that keeps the vector's capacity. Values that take no
    /// memory need no slots, and the capacity is then unbounded.
    pub fn from_values(vec: Vec<T>, capacity: usize) -> (r: Self)
        requires
            !zero_sized::<T>() ==> vec@.len() <= capacity,
            !zero_sized::<T>() ==> fits_layout(capacity as nat, vstd::layout::size_of::<T>()),
        ensures
            r.wf(),
            r@ == vec@,
            r.spec_capacity() == if zero_sized::<T>() {
                usize::MAX as nat
            } else {
                capacity as nat
            },
    {
        if is_zst::<T>() {
            let len = vec.len();
            return Cev { buf: RawCev::new(), len, zst_values: vec };
        }
        let len = vec.len();
        let mut buf: RawCev<T> = RawCev::with_capacity(capacity);
        if len > 0 {
            buf.mov_ptr(capacity - len);
        }
        let start = capacity - len;
        let mut rest = vec;
        let mut i: usize = len;
        while i > 0
            invariant
                !zero_sized::<T>(),
                i <= len <= capacity,
                len == vec@.len(),
                start == capacity - len,
                rest@ == vec@.subrange(0, i as int),
                buf.wf(),
                buf.spec_capacity() == capacity,
                len > 0 ==> buf.offset() == start,
                len == 0 && capacity > 0 ==> buf.offset() == capacity - 1,
                forall|j: int|
                    0 <= j < capacity ==> #[trigger] buf.slot(j) == if start + i <= j {
                        Some(vec@[j - start])
                    } else {
                        None::<T>
                    },
            decreases i,
        {
            let value = rest.pop().unwrap();
            i = i - 1;
            buf.set_slot(start + i, Some(value));
        }
        let r = Cev { buf, len, zst_values: Vec::new() };
        assert(r@ =~= vec@);
        r
    }

    /// A vector of the values of the array, in order.
    pub fn into_vec(self) -> (r: Vec<T>)
        requires
            self.wf(),
        ensures
            r@ == self@,
    {
        proof {
            self.lemma_wf();
        }
        let ghost view = self@;
        let Cev { mut buf, len, zst_values } = self;
        if is_zst::<T>() {
            return zst_values;
        }
        let p = buf.ptr();
        let mut out: Vec<T> = Vec::with_capacity(buf.capacity());
        let ghost full = buf;
        let mut k: usize = 0;
        while k < len
            invariant
                !zero_sized::<T>(),
                full.holds(len as nat),
                view == full.live(len as nat),
                p == full.offset(),
                k <= len,
                buf.wf(),
                buf.spec_capacity() == full.spec_capacity(),
                forall|j: int| p + k <= j < p + len ==> #[trigger] buf.slot(j) == full.slot(j),
                out@ == view.subrange(0, k as int),
            decreases len - k,
        {
            let value = buf.take(p + k).unwrap();
            out.push(value);
            k = k + 1;
            assert(out@ =~= view.subrange(0, k as int));
        }
        assert(out@ =~= view);
        out
    }

    /// An iterator that takes the values of the array, in order, from
    /// either end.
    pub fn into_iter(self) -> (r: IntoIter<T>)
        requires
            self.wf(),
        ensures
            r.wf(),
            r@ == self@,
    {
        let Cev { buf, len, zst_values } = self;
        let ptr = buf.ptr();
        let end = if is_zst::<T>() {
            0
        } else {
            ptr + len
        };
        let r = IntoIter { buf, ptr, end, zst_values };
        assert(r@ =~= self@);
        r
    }

    /// The value at `index`.
    pub fn get(&self, index: usize) -> (r: &T)
        requires
            self.wf(),
            index < self@.len(),
        ensures
            *r == self@[index as int],
    {
        if is_zst::<T>() {
            &self.zst_values[index]
        } else {
            self.buf.get_slot(self.buf.ptr() + index)
        }
    }

    /// The value at `index`, to change it in place.
    pub fn get_mut(&mut self, index: usize) -> (r: &mut T)
        requires
            old(self).wf(),
            index < old(self)@.len(),
        ensures
            *r == old(self)@[index as int],
            final(self).wf(),
            final(self)@ == old(self)@.update(index as int, *final(r)),
            final(self).spec_capacity() == old(self).spec_capacity(),
    {
        if is_zst::<T>() {
            &mut self.zst_values[index]
        } else {
            let at = self.buf.ptr() + index;
            self.buf.get_slot_mut(at)
        }
    }
}

impl<T> Default for Cev<T> {
    /// A new, empty array, as `new` makes.
    fn default() -> (r: Self)
        ensures
            r.wf(),
            r@ == Seq::<T>::empty(),
    {
        Cev::new()
    }
}

/// The data start of every array is where `data_start_for` puts it: 0
/// where there is no allocation, the values fill it or take no memory;
/// the last slot where the array is empty; else `capacity - len`. The
/// capacity holds the values, and is unbounded for values that take no
/// memory.
pub proof fn lemma_data_start<T>(c: &Cev<T>)
    requires
        c.wf(),
    ensures
        c.offset() == data_start_for::<T>(c.spec_capacity(), c@.len()),
        c@.len() <= c.spec_capacity() <= usize::MAX,
        zero_sized::<T>() ==> c.spec_capacity() == usize::MAX,
{
    c.lemma_wf();
}

/// An empty array with an allocation has its data start on its last
/// slot, and every slot empty.
pub proof fn lemma_resting_position<T>(c: &Cev<T>)
    requires
        c.wf(),
        !zero_sized::<T>(),
        c.spec_capacity() > 0,
        c@.len() == 0,
    ensures
        c.offset() == c.spec_capacity() - 1,
        forall|j: int| 0 <= j < c.spec_capacity() ==> #[trigger] c.slot(j) is None,
{
}

/// A non-empty array has its data start `capacity - len` slots from the
/// start of the allocation, and its value at index `i` in the slot `i`
/// past the data start.
pub proof fn lemma_front_occupancy<T>(c: &Cev<T>)
    requires
        c.wf(),
        !zero_sized::<T>(),
        c@.len() > 0,
    ensures
        c.offset() == c.spec_capacity() - c@.len(),
        forall|i: int| 0 <= i < c@.len() ==> #[trigger] c.slot(c.offset() + i) == Some(c@[i]),
{
    assert forall|i: int| 0 <= i < c@.len() implies #[trigger] c.slot(c.offset() + i) == Some(
        c@[i],
    ) by {
        assert(c.buf.slot(c.buf.offset() + i) is Some);
    }
}

/// An array of a type that takes no memory has an unbounded capacity,
/// allocates no slot, and keeps its data start at 0.
pub proof fn lemma_zero_sized<T>(c: &Cev<T>)
    requires
        c.wf(),
        zero_sized::<T>(),
    ensures
        c.spec_capacity() == usize::MAX,
        c.allocated_slots() == 0,
        c.offset() == 0,
{
}

impl<T: Clone> Clone for Cev<T> {
    /// A copy of the array, made of clones of its values, in a buffer of
    /// exactly its length.
    fn clone(&self) -> (r: Self)
        ensures
            self.wf() ==> {
                &&& r.wf()
                &&& r@.len() == self@.len()
                &&& forall|i: int| 0 <= i < self@.len() ==> cloned(self@[i], #[trigger] r@[i])
                &&& r.spec_capacity() == if zero_sized::<T>() {
                    usize::MAX as nat
                } else {
                    self@.len()
                }
            },
    {
        if is_zst::<T>() {
            let values = self.zst_values.clone();
            let len = values.len();
            return Cev { buf: RawCev::new(), len, zst_values: values };
        }
        let values = self.buf.clone_live(self.len);
        let n = values.len();
        proof {
            if self.wf() {
                let size = vstd::layout::size_of::<T>();
                let cap = self.buf.spec_capacity();
                assert(n * size <= cap * size) by (nonlinear_arith)
                    requires
                        n <= cap,
                ;
            }
        }
        match array_layout::<T>(n) {
            Ok(_) => Self::from_values(values, n),
            Err(_) => Cev::new(),
        }
    }
}

/// Conversion of a slice to an array of clones of its values.
pub trait ConvertCev: Clone + Sized {
    /// An array of clones of the values of `s`, in order, in a buffer of
    /// exactly their number.
    fn to_cev(s: &[Self]) -> (r: Cev<Self>)
        requires
            !zero_sized::<Self>() ==> fits_layout(s@.len(), vstd::layout::size_of::<Self>()),
        ensures
            r.wf(),
            r@.len() == s@.len(),
            forall|i: int| 0 <= i < s@.len() ==> cloned(s@[i], #[trigger] r@[i]),
            r.spec_capacity() == if zero_sized::<Self>() {
                usize::MAX as nat
            } else {
                s@.len()
            },
    ;
}

impl<T: Clone> ConvertCev for T {
    fn to_cev(s: &[T]) -> (r: Cev<T>) {
        let mut values: Vec<T> = Vec::with_capacity(s.len());
        let mut i: usize = 0;
        while i < s.len()
            invariant
                i <= s@.len(),
                values@.len() == i,
                forall|k: int| 0 <= k < i ==> cloned(s@[k], #[trigger] values@[k]),
            decreases s@.len() - i,
        {
            values.push(s[i].clone());
            i = i + 1;
        }
        if is_zst::<T>() {
            let len = values.len();
            Cev { buf: RawCev::new(), len, zst_values: values }
        } else {
            let n = values.len();
            Cev::from_values(values, n)
        }
    }
}

/// An array of clones of the values of `s`, in order, in a buffer of
/// exactly their number.
pub fn to_cev<T: ConvertCev>(s: &[T]) -> (r: Cev<T>)
    requires
        !zero_sized::<T>() ==> fits_layout(s@.len(), vstd::layout::size_of::<T>()),
    ensures
        r.wf(),
        r@.len() == s@.len(),
        forall|i: int| 0 <= i < s@.len() ==> cloned(s@[i], #[trigger] r@[i]),
        r.spec_capacity() == if zero_sized::<T>() {
            usize::MAX as nat
        } else {
            s@.len()
        },
{
    T::to_cev(s)
}

/// The values of an array, taken one by one from either end.
///
/// It keeps the array's buffer; the values not taken are dropped with it,
/// each once.
pub struct IntoIter<T> {
    buf: RawCev<T>,
    ptr: usize,
    end: usize,
    zst_values: Vec<T>,
}

impl<T> View for IntoIter<T> {
    type V = Seq<T>;

    closed spec fn view(&self) -> Seq<T> {
        if zero_sized::<T>() {
            self.zst_values@
        } else {
            Seq::new((self.end - self.ptr) as nat, |i: int| self.buf.slot(self.ptr + i)->Some_0)
        }
    }
}

impl<T> IntoIter<T> {
    /// The invariant of the iterator: the values not taken are those of
    /// the slots from `ptr` up to `end`.
    pub closed spec fn wf(&self) -> bool {
        &&& self.buf.wf()
        &&& !zero_sized::<T>() ==> {
            &&& self.ptr <= self.end <= self.buf.spec_capacity()
            &&& forall|j: int|
                0 <= j < self.buf.spec_capacity() ==> (#[trigger] self.buf.slot(j) is Some
                    <==> self.ptr <= j < self.end)
        }
    }

    /// Number of values not taken yet.
    pub fn len(&self) -> (r: usize)
        requires
            self.wf(),
        ensures
            r == self@.len(),
    {
        if is_zst::<T>() {
            self.zst_values.len()
        } else {
            self.end - self.ptr
        }
    }

    /// The value at `index` among those not taken yet.
    pub fn get(&self, index: usize) -> (r: &T)
        requires
            self.wf(),
            index < self@.len(),
        ensures
            *r == self@[index as int],
    {
        if is_zst::<T>() {
            &self.zst_values[index]
        } else {
            self.buf.get_slot(self.ptr + index)
        }
    }

    /// The value at `index` among those not taken yet, to change it in
    /// place.
    pub fn get_mut(&mut self, index: usize) -> (r: &mut T)
        requires
            old(self).wf(),
            index < old(self)@.len(),
        ensures
            *r == old(self)@[index as int],
            final(self).wf(),
            final(self)@ == old(self)@.update(index as int, *final(r)),
    {
        if is_zst::<T>() {
            &mut self.zst_values[index]
        } else {
            let at = self.ptr + index;
            self.buf.get_slot_mut(at)
        }
    }

    /// Takes the first value not taken yet; `None` where all were taken.
    pub fn next(&mut self) -> (r: Option<T>)
        requires
            old(self).wf(),
        ensures
            final(self).wf(),
            old(self)@.len() == 0 ==> r is None && final(self)@ == old(self)@,
            old(self)@.len() > 0 ==> r == Some(old(self)@[0]) && final(self)@ == old(self)@.drop_first(),
    {
        if is_zst::<T>() {
            if self.zst_values.len() == 0 {
                return None;
            }
            let value = self.zst_values.remove(0);
            return Some(value);
        }
        if self.ptr == self.end {
            return None;
        }
        let at = self.ptr;
        let value = self.buf.take(at);
        self.ptr = self.ptr + 1;
        assert(self@ =~= old(self)@.drop_first()) by {
            assert forall|i: int| 0 <= i < self@.len() implies self@[i] == old(self)@.drop_first()[i] by {
                assert(self.buf.slot(self.ptr + i) == old(self).buf.slot(old(self).ptr + 1 + i));
            }
        }
        value
    }

    /// Takes the last value not taken yet; `None` where all were taken.
    pub fn next_back(&mut self) -> (r: Option<T>)
        requires
            old(self).wf(),
        ensures
            final(self).wf(),
            old(self)@.len() == 0 ==> r is None && final(self)@ == old(self)@,
            old(self)@.len() > 0 ==> r == Some(old(self)@.last()) && final(self)@ == old(self)@.drop_last(),
    {
        if is_zst::<T>() {
            return self.zst_values.pop();
        }
        if self.ptr == self.end {
            return None;
        }
        self.end = self.end - 1;
        let value = self.buf.take(self.end);
        assert(self@ =~= old(self)@.drop_last()) by {
            assert forall|i: int| 0 <= i < self@.len() implies self@[i] == old(self)@.drop_last()[i] by {
                assert(self.buf.slot(self.ptr + i) == old(self).buf.slot(old(self).ptr + i));
            }
        }
        value
    }
}

} // verus!
