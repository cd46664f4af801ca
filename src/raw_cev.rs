use crate::alloc_err::{Layout, TryReserveError, TryReserveErrorKind};
use vstd::prelude::*;

verus! {

/// Whether a value of `T` takes no memory.
pub open spec fn zero_sized<T>() -> bool {
    vstd::layout::size_of::<T>() == 0
}

/// The capacity that an empty buffer first grows to, by element size in bytes.
pub open spec fn min_non_zero_cap(elem_size: nat) -> nat {
    if elem_size == 1 {
        8
    } else if elem_size <= 1024 {
        4
    } else {
        1
    }
}

/// The capacity after an amortized growth of a buffer of `cap` slots that
/// must then hold `required` values: the largest of twice the old
/// capacity, the required one, and the minimum for the element size.
pub open spec fn grown_capacity(cap: nat, required: nat, elem_size: nat) -> nat {
    let doubled = if 2 * cap >= required {
        2 * cap
    } else {
        required
    };
    if min_non_zero_cap(elem_size) >= doubled {
        min_non_zero_cap(elem_size)
    } else {
        doubled
    }
}

/// Whether an array of `n` elements of `elem_size` bytes each can be laid
/// out in one allocation.
pub open spec fn fits_layout(n: nat, elem_size: nat) -> bool {
    n * elem_size <= isize::MAX
}

/// Whether values of `T` take no memory.
pub fn is_zst<T>() -> (r: bool)
    ensures
        r == zero_sized::<T>(),
{
    core::mem::size_of::<T>() == 0
}

/// The capacity that an empty buffer of `T` first grows to.
fn min_non_zero_cap_of<T>() -> (r: usize)
    ensures
        r == min_non_zero_cap(vstd::layout::size_of::<T>()),
{
    let size = core::mem::size_of::<T>();
    if size == 1 {
        8
    } else if size <= 1024 {
        4
    } else {
        1
    }
}

/// The layout of an array of `n` values of `T`, or a capacity overflow
/// where its size in bytes exceeds `isize::MAX`.
pub fn array_layout<T>(n: usize) -> (r: Result<Layout, TryReserveError>)
    ensures
        r is Ok <==> fits_layout(n as nat, vstd::layout::size_of::<T>()),
        r matches Ok(l) ==> l.size == n * vstd::layout::size_of::<T>() && l.align
            == vstd::layout::align_of::<T>(),
        r matches Err(e) ==> e.kind is CapacityOverflow,
{
    let size = core::mem::size_of::<T>();
    let align = core::mem::align_of::<T>();
    match n.checked_mul(size) {
        Some(bytes) => {
            if bytes <= isize::MAX as usize {
                Ok(Layout { size: bytes, align })
            } else {
                Err(TryReserveError { kind: TryReserveErrorKind::CapacityOverflow })
            }
        },
        None => Err(TryReserveError { kind: TryReserveErrorKind::CapacityOverflow }),
    }
}

/// Refuses an allocation larger than `isize::MAX` bytes.
pub fn alloc_guard(alloc_size: usize) -> (r: Result<(), TryReserveError>)
    ensures
        r is Ok <==> alloc_size <= isize::MAX,
        r matches Err(e) ==> e.kind is CapacityOverflow,
{
    if alloc_size > isize::MAX as usize {
        Err(TryReserveError { kind: TryReserveErrorKind::CapacityOverflow })
    } else {
        Ok(())
    }
}

/// `n` empty slots.
fn empty_slots<T>(n: usize) -> (r: Vec<Option<T>>)
    ensures
        r@.len() == n,
        forall|j: int| 0 <= j < n ==> #[trigger] r@[j] is None,
{
    let mut slots: Vec<Option<T>> = Vec::with_capacity(n);
    let mut i: usize = 0;
    while i < n
        invariant
            i <= n,
            slots@.len() == i,
            forall|j: int| 0 <= j < i ==> #[trigger] slots@[j] is None,
        decreases n - i,
    {
        slots.push(None);
        i = i + 1;
    }
    slots
}

/// A buffer of slots for values of `T`, with a moving data start.
///
/// Slots are addressed by their index from the start of the allocation.
/// The data start is the slot of the first value, or, while the buffer
/// holds none, the last slot, where the next value goes. Values of a type
/// that takes no memory are not kept in slots: for such a type the buffer
/// has no slots, its data start stays at 0, and its capacity is unbounded.
pub struct RawCev<T> {
    slots: Vec<Option<T>>,
    mov: usize,
    cap: usize,
}

impl<T> RawCev<T> {
    /// Number of values the buffer can hold.
    pub closed spec fn spec_capacity(&self) -> nat {
        if zero_sized::<T>() {
            usize::MAX as nat
        } else {
            self.cap as nat
        }
    }

    /// The data start, as a slot index.
    pub closed spec fn offset(&self) -> nat {
        self.mov as nat
    }

    /// What each slot holds.
    pub closed spec fn slots_view(&self) -> Seq<Option<T>> {
        self.slots@
    }

    /// What slot `i` holds.
    pub open spec fn slot(&self, i: int) -> Option<T> {
        self.slots_view()[i]
    }

    /// The buffer's own invariant, whatever it holds.
    pub open spec fn wf(&self) -> bool {
        &&& self.spec_capacity() <= usize::MAX
        &&& zero_sized::<T>() ==> {
            &&& self.spec_capacity() == usize::MAX
            &&& self.offset() == 0
            &&& self.slots_view().len() == 0
        }
        &&& !zero_sized::<T>() ==> {
            &&& self.slots_view().len() == self.spec_capacity()
            &&& fits_layout(self.spec_capacity(), vstd::layout::size_of::<T>())
            &&& self.spec_capacity() == 0 ==> self.offset() == 0
            &&& self.spec_capacity() > 0 ==> self.offset() < self.spec_capacity()
        }
    }

    /// The buffer holds `len` values: those of the slots from the data
    /// start on, every other slot is empty, and the data start is
    /// `capacity - len`, or `capacity - 1` while `len` is 0.
    pub open spec fn holds(&self, len: nat) -> bool {
        &&& self.wf()
        &&& !zero_sized::<T>() ==> {
            &&& len <= self.spec_capacity()
            &&& len > 0 ==> self.offset() == self.spec_capacity() - len
            &&& len == 0 && self.spec_capacity() > 0 ==> self.offset() == self.spec_capacity()
                - 1
            &&& forall|j: int|
                0 <= j < self.spec_capacity() ==> (#[trigger] self.slot(j) is Some <==> self.offset()
                    <= j < self.offset() + len)
        }
    }

    /// The `len` values from the data start on, in slot order.
    pub open spec fn live(&self, len: nat) -> Seq<T> {
        Seq::new(len, |i: int| self.slot(self.offset() + i)->Some_0)
    }

    /// Whether an amortized growth for `len` values and `additional` more
    /// succeeds.
    pub open spec fn can_grow(&self, len: nat, additional: nat) -> bool {
        &&& !zero_sized::<T>()
        &&& len + additional <= usize::MAX
        &&& fits_layout(
            grown_capacity(self.spec_capacity(), len + additional, vstd::layout::size_of::<T>()),
            vstd::layout::size_of::<T>(),
        )
    }

    /// A buffer without an allocation.
    pub fn new() -> (r: Self)
        ensures
            r.holds(0),
            r.spec_capacity() == if zero_sized::<T>() {
                usize::MAX as nat
            } else {
                0
            },
            r.offset() == 0,
    {
        RawCev { slots: Vec::new(), mov: 0, cap: 0 }
    }

    /// A buffer of `capacity` empty slots, with its data start on the last.
    pub fn with_capacity(capacity: usize) -> (r: Self)
        requires
            !zero_sized::<T>() ==> fits_layout(capacity as nat, vstd::layout::size_of::<T>()),
        ensures
            r.holds(0),
            r.spec_capacity() == if zero_sized::<T>() {
                usize::MAX as nat
            } else {
                capacity as nat
            },
            r.offset() == if zero_sized::<T>() || capacity == 0 {
                0
            } else {
                capacity - 1
            },
    {
        Self::allocate(capacity)
    }

    /// A buffer of `capacity` empty slots, with its data start on the
    /// last; no allocation where `capacity` is 0 or the values take no
    /// memory.
    pub fn allocate(capacity: usize) -> (r: Self)
        requires
            !zero_sized::<T>() ==> fits_layout(capacity as nat, vstd::layout::size_of::<T>()),
        ensures
            r.holds(0),
            r.spec_capacity() == if zero_sized::<T>() {
                usize::MAX as nat
            } else {
                capacity as nat
            },
            r.offset() == if zero_sized::<T>() || capacity == 0 {
                0
            } else {
                capacity - 1
            },
    {
        if is_zst::<T>() || capacity == 0 {
            Self::new()
        } else {
            RawCev { slots: empty_slots(capacity), mov: capacity - 1, cap: capacity }
        }
    }

    /// The data start, as a slot index.
    pub fn ptr(&self) -> (r: usize)
        ensures
            r == self.offset(),
    {
        self.mov
    }

    /// The start of the allocation, as a slot index.
    pub fn base_ptr(&self) -> (r: usize)
        ensures
            r == 0,
    {
        0
    }

    /// Number of values the buffer can hold: `usize::MAX` for a type that
    /// takes no memory.
    pub fn capacity(&self) -> (r: usize)
        ensures
            r == self.spec_capacity(),
    {
        if is_zst::<T>() {
            usize::MAX
        } else {
            self.cap
        }
    }

    /// Sets the data start to slot `at`.
    pub fn mov_ptr(&mut self, at: usize)
        requires
            old(self).wf(),
            zero_sized::<T>() ==> at == 0,
            !zero_sized::<T>() && old(self).spec_capacity() == 0 ==> at == 0,
            !zero_sized::<T>() && old(self).spec_capacity() > 0 ==> at < old(self).spec_capacity(),
        ensures
            final(self).wf(),
            final(self).offset() == at,
            final(self).spec_capacity() == old(self).spec_capacity(),
            final(self).slots_view() == old(self).slots_view(),
            forall|j: int| #[trigger] final(self).slot(j) == old(self).slot(j),
    {
        self.mov = at;
    }

    /// Moves the data start `count` slots up.
    pub fn mov_ptr_add(&mut self, count: usize)
        requires
            old(self).wf(),
            zero_sized::<T>() ==> count == 0,
            !zero_sized::<T>() ==> old(self).offset() + count < old(self).spec_capacity() || count
                == 0,
        ensures
            final(self).wf(),
            final(self).offset() == old(self).offset() + count,
            final(self).spec_capacity() == old(self).spec_capacity(),
            final(self).slots_view() == old(self).slots_view(),
            forall|j: int| #[trigger] final(self).slot(j) == old(self).slot(j),
    {
        self.mov = self.mov + count;
    }

    /// Moves the data start `count` slots down.
    pub fn mov_ptr_sub(&mut self, count: usize)
        requires
            old(self).wf(),
            zero_sized::<T>() ==> count == 0,
            count <= old(self).offset(),
        ensures
            final(self).wf(),
            final(self).offset() == old(self).offset() - count,
            final(self).spec_capacity() == old(self).spec_capacity(),
            final(self).slots_view() == old(self).slots_view(),
            forall|j: int| #[trigger] final(self).slot(j) == old(self).slot(j),
    {
        self.mov = self.mov - count;
    }

    /// Sets what slot `at` holds.
    pub(crate) fn set_slot(&mut self, at: usize, content: Option<T>)
        requires
            old(self).wf(),
            at < old(self).slots_view().len(),
        ensures
            final(self).wf(),
            final(self).offset() == old(self).offset(),
            final(self).spec_capacity() == old(self).spec_capacity(),
            final(self).slots_view() == old(self).slots_view().update(at as int, content),
            final(self).slot(at as int) == content,
            forall|j: int|
                0 <= j < old(self).slots_view().len() && j != at ==> #[trigger] final(self).slot(j)
                    == old(self).slot(j),
    {
        self.slots[at] = content;
    }

    /// The value in slot `at`.
    pub(crate) fn get_slot(&self, at: usize) -> (r: &T)
        requires
            self.wf(),
            at < self.slots_view().len(),
            self.slot(at as int) is Some,
        ensures
            *r == self.slot(at as int)->Some_0,
    {
        self.slots[at].as_ref().unwrap()
    }

    /// The value in slot `at`, to change it in place.
    pub(crate) fn get_slot_mut(&mut self, at: usize) -> (r: &mut T)
        requires
            old(self).wf(),
            at < old(self).slots_view().len(),
            old(self).slot(at as int) is Some,
        ensures
            *r == old(self).slot(at as int)->Some_0,
            final(self).wf(),
            final(self).offset() == old(self).offset(),
            final(self).spec_capacity() == old(self).spec_capacity(),
            final(self).slots_view() == old(self).slots_view().update(at as int, Some(*final(r))),
            final(self).slot(at as int) is Some,
            forall|j: int|
                0 <= j < old(self).slots_view().len() && j != at ==> #[trigger] final(self).slot(j)
                    == old(self).slot(j),
    {
        self.slots[at].as_mut().unwrap()
    }

    /// Empties slot `at`, returning what it held.
    pub(crate) fn take(&mut self, at: usize) -> (r: Option<T>)
        requires
            old(self).wf(),
            at < old(self).slots_view().len(),
        ensures
            r == old(self).slot(at as int),
            final(self).wf(),
            final(self).offset() == old(self).offset(),
            final(self).spec_capacity() == old(self).spec_capacity(),
            final(self).slots_view() == old(self).slots_view().update(at as int, None),
            final(self).slot(at as int) is None,
            forall|j: int|
                0 <= j < old(self).slots_view().len() && j != at ==> #[trigger] final(self).slot(j)
                    == old(self).slot(j),
    {
        self.slots[at].take()
    }

    /// Where the allocation starts, where its data starts, and its layout;
    /// `None` where there is no allocation.
    pub fn allocated_memory(&self) -> (r: Option<(usize, usize, Layout)>)
        requires
            self.wf(),
        ensures
            r is None <==> zero_sized::<T>() || self.spec_capacity() == 0,
            r matches Some(m) ==> m.0 == 0 && m.1 == self.offset() && m.2.size
                == self.spec_capacity() * vstd::layout::size_of::<T>() && m.2.align
                == vstd::layout::align_of::<T>(),
    {
        if is_zst::<T>() || self.cap == 0 {
            None
        } else {
            let size = core::mem::size_of::<T>();
            let align = core::mem::align_of::<T>();
            assert(self.cap * size <= isize::MAX);
            let bytes: usize = self.cap * size;
            Some((0, self.mov, Layout { size: bytes, align }))
        }
    }

    /// The slots that growth keeps: those from the data start to the end
    /// of the allocation, or the one slot where the first value goes
    /// where there is no allocation yet.
    pub open spec fn kept_region(&self) -> Seq<Option<T>> {
        if self.spec_capacity() == 0 {
            seq![None]
        } else {
            self.slots_view().subrange(self.offset() as int, self.spec_capacity() as int)
        }
    }

    /// Moves the buffer to a new allocation of `new_cap` slots, with the
    /// kept region at its high end.
    fn increase(&mut self, new_cap: usize)
        requires
            old(self).wf(),
            !zero_sized::<T>(),
            old(self).spec_capacity() > 0,
            new_cap >= old(self).spec_capacity(),
            fits_layout(new_cap as nat, vstd::layout::size_of::<T>()),
        ensures
            final(self).wf(),
            final(self).spec_capacity() == new_cap,
            final(self).offset() == new_cap - old(self).kept_region().len(),
            final(self).slots_view() == Seq::new(final(self).offset(), |j: int| None::<T>)
                + old(self).kept_region(),
    {
        let old_cap = self.cap;
        let start = self.mov;
        let new_mov = new_cap - (old_cap - start);
        let mut slots: Vec<Option<T>> = empty_slots(new_mov);
        let mut j: usize = start;
        while j < old_cap
            invariant
                start <= j <= old_cap,
                old_cap == old(self).spec_capacity(),
                start == old(self).offset(),
                new_mov == new_cap - (old_cap - start),
                self.slots@.len() == old_cap,
                forall|k: int| j <= k < old_cap ==> self.slots@[k] == old(self).slots_view()[k],
                slots@.len() == new_mov + (j - start),
                forall|k: int| 0 <= k < new_mov ==> #[trigger] slots@[k] is None,
                forall|k: int|
                    new_mov <= k < slots@.len() ==> #[trigger] slots@[k] == old(
                        self,
                    ).slots_view()[start + k - new_mov],
            decreases old_cap - j,
        {
            let value = self.slots[j].take();
            slots.push(value);
            j = j + 1;
        }
        assert(slots@ =~= Seq::new(new_mov as nat, |k: int| None::<T>) + old(self).kept_region());
        self.slots = slots;
        self.mov = new_mov;
        self.cap = new_cap;
    }

    /// Grows the buffer to `new_cap` slots, given the layout computed for
    /// them; fails where that layout could not be computed or is too large.
    fn finish_increase(&mut self, new_layout: Result<Layout, TryReserveError>, new_cap: usize) -> (r:
        Result<(), TryReserveError>)
        requires
            old(self).wf(),
            !zero_sized::<T>(),
            new_cap > 0,
            new_cap >= old(self).spec_capacity(),
            new_layout is Ok <==> fits_layout(new_cap as nat, vstd::layout::size_of::<T>()),
            new_layout matches Ok(l) ==> l.size == new_cap * vstd::layout::size_of::<T>(),
        ensures
            r is Ok <==> new_layout is Ok,
            r matches Err(e) ==> e.kind is CapacityOverflow && *final(self) == *old(self),
            r is Ok ==> {
                &&& final(self).wf()
                &&& final(self).spec_capacity() == new_cap
                &&& final(self).offset() == new_cap - old(self).kept_region().len()
                &&& final(self).slots_view() == Seq::new(final(self).offset(), |j: int| None::<T>)
                    + old(self).kept_region()
            },
    {
        let layout = match new_layout {
            Ok(layout) => layout,
            Err(_) => {
                return Err(TryReserveError { kind: TryReserveErrorKind::CapacityOverflow });
            },
        };
        match alloc_guard(layout.size) {
            Ok(()) => {},
            Err(e) => {
                return Err(e);
            },
        }
        match self.allocated_memory() {
            Some(_) => {
                self.increase(new_cap);
            },
            None => {
                let slots = empty_slots(new_cap);
                assert(slots@ =~= Seq::new((new_cap - 1) as nat, |j: int| None::<T>)
                    + old(self).kept_region());
                self.slots = slots;
                self.mov = new_cap - 1;
                self.cap = new_cap;
            },
        }
        Ok(())
    }

    /// Grows the buffer, which holds `len` values, so that it can take
    /// `additional` more: to twice its capacity, or to what is required,
    /// or to the minimum for the element size, whichever is largest. The
    /// values keep their order and stay at the high end.
    pub fn grow_amortized(&mut self, len: usize, additional: usize) -> (r: Result<(), TryReserveError>)
        requires
            old(self).holds(len as nat),
        ensures
            r is Ok <==> old(self).can_grow(len as nat, additional as nat),
            r matches Err(e) ==> e.kind is CapacityOverflow && *final(self) == *old(self),
            r is Ok ==> {
                &&& final(self).holds(len as nat)
                &&& final(self).live(len as nat) == old(self).live(len as nat)
                &&& final(self).spec_capacity() == grown_capacity(
                    old(self).spec_capacity(),
                    (len + additional) as nat,
                    vstd::layout::size_of::<T>(),
                )
            },
    {
        if is_zst::<T>() {
            return Err(TryReserveError { kind: TryReserveErrorKind::CapacityOverflow });
        }
        let required = match len.checked_add(additional) {
            Some(required) => required,
            None => {
                return Err(TryReserveError { kind: TryReserveErrorKind::CapacityOverflow });
            },
        };
        let size = core::mem::size_of::<T>();
        assert(self.cap <= self.cap * size) by (nonlinear_arith)
            requires
                size >= 1,
        ;
        let doubled = if self.cap * 2 >= required {
            self.cap * 2
        } else {
            required
        };
        let min_cap = min_non_zero_cap_of::<T>();
        let cap = if min_cap >= doubled {
            min_cap
        } else {
            doubled
        };
        let new_layout = array_layout::<T>(cap);
        let ghost old_region = self.kept_region();
        let result = self.finish_increase(new_layout, cap);
        proof {
            if result is Ok {
                let new_off = self.offset();
                assert forall|j: int| 0 <= j < cap implies (#[trigger] self.slot(j) is Some
                    <==> new_off <= j < new_off + len) by {
                    if j >= new_off {
                        assert(self.slot(j) == old_region[j - new_off]);
                        if old(self).spec_capacity() > 0 {
                            assert(old_region[j - new_off] == old(self).slot(
                                old(self).offset() + j - new_off,
                            ));
                        }
                    }
                }
                assert(self.live(len as nat) =~= old(self).live(len as nat)) by {
                    assert forall|i: int| 0 <= i < len implies self.live(len as nat)[i]
                        == old(self).live(len as nat)[i] by {
                        assert(self.slot(new_off + i) == old_region[i]);
                    }
                }
            }
        }
        result
    }

    /// Whether holding `len` values and `additional` more needs a growth.
    fn needs_to_grow(&self, len: usize, additional: usize) -> (r: bool)
        requires
            self.holds(len as nat),
            len <= self.spec_capacity(),
        ensures
            r == (additional > self.spec_capacity() - len),
    {
        additional > self.capacity().wrapping_sub(len)
    }

    /// Makes room for `additional` more values beside the `len` held.
    /// Does nothing where there is room already; else grows as
    /// `grow_amortized` does, which must then succeed.
    pub fn reserve(&mut self, len: usize, additional: usize)
        requires
            old(self).holds(len as nat),
            len <= old(self).spec_capacity(),
            additional > old(self).spec_capacity() - len ==> old(self).can_grow(
                len as nat,
                additional as nat,
            ),
        ensures
            final(self).holds(len as nat),
            final(self).live(len as nat) == old(self).live(len as nat),
            final(self).spec_capacity() == if additional > old(self).spec_capacity() - len {
                grown_capacity(
                    old(self).spec_capacity(),
                    (len + additional) as nat,
                    vstd::layout::size_of::<T>(),
                )
            } else {
                old(self).spec_capacity()
            },
    {
        if self.needs_to_grow(len, additional) {
            // succeeds, by the precondition
            let _ = self.grow_amortized(len, additional);
        }
    }

    /// Makes room for one more value beside the `len` held, by an
    /// amortized growth that must succeed.
    pub fn reserve_for_push(&mut self, len: usize)
        requires
            old(self).holds(len as nat),
            old(self).can_grow(len as nat, 1),
        ensures
            final(self).holds(len as nat),
            final(self).live(len as nat) == old(self).live(len as nat),
            final(self).spec_capacity() == grown_capacity(
                old(self).spec_capacity(),
                (len + 1) as nat,
                vstd::layout::size_of::<T>(),
            ),
    {
        // succeeds, by the precondition
        let _ = self.grow_amortized(len, 1);
    }

    /// Makes room for `additional` more values beside the `len` held, as
    /// `reserve` does, or returns the error of the growth, which then
    /// changes nothing.
    pub fn try_reserve(&mut self, len: usize, additional: usize) -> (r: Result<(), TryReserveError>)
        requires
            old(self).holds(len as nat),
            len <= old(self).spec_capacity(),
        ensures
            r is Ok <==> (additional <= old(self).spec_capacity() - len || old(self).can_grow(
                len as nat,
                additional as nat,
            )),
            r matches Err(e) ==> e.kind is CapacityOverflow && *final(self) == *old(self),
            final(self).holds(len as nat),
            final(self).live(len as nat) == old(self).live(len as nat),
            r is Ok ==> final(self).spec_capacity() == if additional > old(self).spec_capacity()
                - len {
                grown_capacity(
                    old(self).spec_capacity(),
                    (len + additional) as nat,
                    vstd::layout::size_of::<T>(),
                )
            } else {
                old(self).spec_capacity()
            },
    {
        if self.needs_to_grow(len, additional) {
            self.grow_amortized(len, additional)
        } else {
            Ok(())
        }
    }
}

impl<T: Clone> RawCev<T> {
    /// Clones of the `len` values from the data start on, in order. Slots
    /// past the buffer or empty give nothing, which cannot happen where the
    /// buffer holds `len` values.
    pub(crate) fn clone_live(&self, len: usize) -> (r: Vec<T>)
        ensures
            self.holds(len as nat) && !zero_sized::<T>() ==> {
                &&& r@.len() == len
                &&& forall|i: int| 0 <= i < len ==> cloned(self.live(len as nat)[i], #[trigger] r@[i])
            },
    {
        let mut out: Vec<T> = Vec::new();
        let mut k: usize = 0;
        while k < len
            invariant
                k <= len,
                self.holds(len as nat) && !zero_sized::<T>() ==> {
                    &&& out@.len() == k
                    &&& forall|i: int| 0 <= i < k ==> cloned(self.live(len as nat)[i], #[trigger] out@[i])
                },
            decreases len - k,
        {
            proof {
                if self.holds(len as nat) && !zero_sized::<T>() {
                    assert(self.slot(self.mov + k) is Some);
                }
            }
            if k < self.slots.len() && self.mov < self.slots.len() - k {
                match &self.slots[self.mov + k] {
                    Some(value) => {
                        let c = value.clone();
                        out.push(c);
                        proof {
                            if self.holds(len as nat) && !zero_sized::<T>() {
                                assert(self.live(len as nat)[k as int] == *value);
                                assert(cloned(self.live(len as nat)[k as int], out@[k as int]));
                            }
                        }
                    },
                    None => {},
                }
            }
            k = k + 1;
        }
        out
    }
}

} // verus!
