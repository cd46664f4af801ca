use crate::cev::{lemma_data_start, reserved_capacity, Cev};
use crate::raw_cev::{min_non_zero_cap, zero_sized};
use vstd::arithmetic::power2::{lemma2_to64, lemma_pow2_pos, lemma_pow2_unfold, pow2};
use vstd::prelude::*;

verus! {

/// The capacity of an array of `T` after `n` pushes from a new, empty
/// one, as `push` states it step by step.
pub open spec fn capacity_after_pushes<T>(n: nat) -> nat
    decreases n,
{
    if n == 0 {
        0
    } else {
        reserved_capacity::<T>(capacity_after_pushes::<T>((n - 1) as nat), (n - 1) as nat, 1)
    }
}

/// Growth by pushes goes by doubling from the minimum for the element
/// size: after `n` pushes from empty the capacity is the least
/// `min_non_zero_cap * 2^k` that holds `n` values (8, 16, 32, ... for
/// one-byte values; 4, 8, 16, ... up to 1024 bytes; 1, 2, 4, ... above).
pub proof fn lemma_growth_thresholds<T>(n: nat, k: nat)
    requires
        !zero_sized::<T>(),
        1 <= n <= min_non_zero_cap(vstd::layout::size_of::<T>()) * pow2(k),
        k == 0 || min_non_zero_cap(vstd::layout::size_of::<T>()) * pow2((k - 1) as nat) < n,
    ensures
        capacity_after_pushes::<T>(n) == min_non_zero_cap(vstd::layout::size_of::<T>()) * pow2(k),
    decreases n,
{
    let m = min_non_zero_cap(vstd::layout::size_of::<T>());
    lemma2_to64();
    lemma_pow2_pos(k);
    if n == 1 {
        if k > 0 {
            lemma_pow2_pos((k - 1) as nat);
            assert(m * pow2((k - 1) as nat) >= 1) by (nonlinear_arith)
                requires
                    m >= 1,
                    pow2((k - 1) as nat) >= 1,
            ;
        }
        assert(capacity_after_pushes::<T>(0) == 0);
    } else {
        let prev = (n - 1) as nat;
        if k == 0 || m * pow2((k - 1) as nat) < prev {
            lemma_growth_thresholds::<T>(prev, k);
        } else {
            lemma_pow2_unfold(k);
            if k >= 2 {
                lemma_pow2_unfold((k - 1) as nat);
                lemma_pow2_pos((k - 2) as nat);
                assert(m * pow2((k - 2) as nat) < m * pow2((k - 1) as nat)) by (nonlinear_arith)
                    requires
                        m >= 1,
                        pow2((k - 1) as nat) == 2 * pow2((k - 2) as nat),
                        pow2((k - 2) as nat) >= 1,
                ;
            }
            lemma_growth_thresholds::<T>(prev, (k - 1) as nat);
            assert(m * pow2(k) == 2 * (m * pow2((k - 1) as nat))) by (nonlinear_arith)
                requires
                    pow2(k) == 2 * pow2((k - 1) as nat),
            ;
        }
    }
}

/// Pushing `a` and then `b` onto an array holding `s`, then popping
/// twice, gives back `b`, then `a`, and leaves `s`.
pub proof fn lemma_push_pop<T>(s: Seq<T>, a: T, b: T)
    ensures
        (seq![b] + (seq![a] + s))[0] == b,
        (seq![b] + (seq![a] + s)).drop_first()[0] == a,
        (seq![b] + (seq![a] + s)).drop_first().drop_first() == s,
{
    assert((seq![b] + (seq![a] + s)).drop_first() =~= seq![a] + s);
    assert((seq![a] + s).drop_first() =~= s);
}

/// Converting an array to a vector and back gives the same values in the
/// same order: whatever `into_vec` returns for `c`, and `from_vec` then
/// makes of it, holds the values of `c`.
pub proof fn lemma_round_trip<T>(c: Cev<T>, v: Vec<T>, d: Cev<T>)
    requires
        call_ensures(Cev::<T>::into_vec, (c,), v),
        call_ensures(Cev::<T>::from_vec, (v,), d),
    ensures
        d@ == c@,
        d.wf(),
{
}

/// Converting back a vector that an array of `T` became, with the
/// capacity and the values of that array, gives the array's values,
/// capacity and data start again, whether the values filled the buffer
/// or not.
pub proof fn lemma_round_trip_with_capacity<T>(c: Cev<T>, cap: usize, v: Vec<T>, d: Cev<T>)
    requires
        c.wf(),
        cap == c.spec_capacity(),
        call_ensures(Cev::<T>::into_vec, (c,), v),
        call_ensures(Cev::<T>::from_values, (v, cap), d),
    ensures
        d@ == c@,
        d.spec_capacity() == c.spec_capacity(),
        d.offset() == c.offset(),
{
    lemma_data_start(&c);
    lemma_data_start(&d);
}

} // verus!
