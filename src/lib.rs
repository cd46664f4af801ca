//! A growable array that grows toward its beginning: new values are
//! added at the front, and the spare capacity of its buffer always lies
//! before the first value.
mod alloc_err;
mod cev;
mod lemmas;
mod raw_cev;

pub use crate::alloc_err::{AllocError, Layout, TryReserveError, TryReserveErrorKind};
pub use crate::cev::{
    data_start_for, growth_fits, lemma_data_start, lemma_front_occupancy, lemma_resting_position, lemma_zero_sized,
    reserved_capacity, to_cev, Cev, ConvertCev, IntoIter,
};
pub use crate::lemmas::{
    capacity_after_pushes, lemma_growth_thresholds, lemma_push_pop, lemma_round_trip,
    lemma_round_trip_with_capacity,
};
pub use crate::raw_cev::{
    alloc_guard, array_layout, fits_layout, grown_capacity, is_zst, min_non_zero_cap,
    zero_sized, RawCev,
};
