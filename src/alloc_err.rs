use vstd::prelude::*;

verus! {

/// The allocator could not provide the memory asked for.
#[derive(Copy, Clone, PartialEq, Eq, Structural, Debug)]
pub struct AllocError;

impl AllocError {
    /// The message that reports this error.
    pub fn message(&self) -> (r: &'static str)
        ensures
            r@ == "memory allocation failed"@,
    {
        "memory allocation failed"
    }
}

/// Size and alignment, in bytes, of a block of memory that was asked for.
#[derive(Copy, Clone, PartialEq, Eq, Structural, Debug)]
pub struct Layout {
    pub size: usize,
    pub align: usize,
}

/// Why reserving capacity failed.
#[derive(Copy, Clone, PartialEq, Eq, Structural, Debug)]
pub enum TryReserveErrorKind {
    /// The capacity asked for cannot be represented, or its size in bytes
    /// exceeds the largest block that may be allocated.
    CapacityOverflow,
    /// The allocator returned no memory for a valid layout.
    AllocError { layout: Layout },
}

/// The error of a failed reservation of capacity.
#[derive(Copy, Clone, PartialEq, Eq, Structural, Debug)]
pub struct TryReserveError {
    pub kind: TryReserveErrorKind,
}

impl TryReserveError {
    /// The kind of failure.
    pub fn kind(&self) -> (r: TryReserveErrorKind)
        ensures
            r == self.kind,
    {
        self.kind
    }

    /// The message that reports this error.
    pub fn message(&self) -> (r: &'static str)
        ensures
            self.kind is CapacityOverflow ==> r@
                == "memory allocation failed because the computed capacity exceeded the collection's maximum"@,
            self.kind is AllocError ==> r@
                == "memory allocation failed because the memory allocator returned an error"@,
    {
        match self.kind {
            TryReserveErrorKind::CapacityOverflow => {
                "memory allocation failed because the computed capacity exceeded the collection's maximum"
            },
            TryReserveErrorKind::AllocError { .. } => {
                "memory allocation failed because the memory allocator returned an error"
            },
        }
    }
}

impl From<TryReserveErrorKind> for TryReserveError {
    fn from(kind: TryReserveErrorKind) -> (r: TryReserveError)
        ensures
            r.kind == kind,
    {
        TryReserveError { kind }
    }
}

impl vstd::std_specs::convert::FromSpecImpl<TryReserveErrorKind> for TryReserveError {
    open spec fn obeys_from_spec() -> bool {
        true
    }

    open spec fn from_spec(kind: TryReserveErrorKind) -> TryReserveError {
        TryReserveError { kind }
    }
}

} // verus!
