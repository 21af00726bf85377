//! Arrays and slices: filling a table of flags, sorting a slice in place.

use vstd::prelude::*;

verus! {

/// Size of the flag table of `sample_array`.
pub const SIEVE_LEN: usize = 10000;

/// A table of `SIEVE_LEN` flags, all set at first; for each `i` from 2 to 99
/// whose flag is still set, every flag from `i * i` to the end is cleared.
/// Only the flags below 4 stay set.
pub fn sample_array() -> (sieve: Vec<bool>)
    ensures
        sieve.len() == SIEVE_LEN,
        forall|k: int| 0 <= k < 4 ==> sieve[k],
        forall|k: int| 4 <= k < SIEVE_LEN ==> !sieve[k],
{
    let mut sieve: Vec<bool> = vec![true; SIEVE_LEN];
    let mut i: usize = 2;
    while i < 100
        invariant
            2 <= i <= 100,
            sieve.len() == SIEVE_LEN,
            forall|k: int| 0 <= k < 4 ==> sieve[k],
            i > 2 ==> forall|k: int| 4 <= k < SIEVE_LEN ==> !sieve[k],
        decreases 100 - i,
    {
        if sieve[i] {
            assert(4 <= i * i <= 99 * 99) by (nonlinear_arith)
                requires
                    2 <= i < 100,
            ;
            let mut j: usize = i * i;
            while j < SIEVE_LEN
                invariant
                    2 <= i < 100,
                    i * i <= j,
                    4 <= i * i,
                    sieve.len() == SIEVE_LEN,
                    forall|k: int| 0 <= k < 4 ==> sieve[k],
                    i > 2 ==> forall|k: int| 4 <= k < SIEVE_LEN ==> !sieve[k],
                    forall|k: int| i * i <= k < j ==> !sieve[k],
                decreases SIEVE_LEN - j,
            {
                sieve.set(j, false);
                j = j + 1;
            }
            assert(i == 2 ==> i * i == 4);
        }
        assert(i == 2 ==> sieve[2]);
        i = i + 1;
    }
    sieve
}

/// Relies on `slice::sort`: it orders the values in place and keeps each of them.
#[verifier::external_body]
fn sort_values(v: &mut Vec<i32>)
    ensures
        final(v)@.to_multiset() == old(v)@.to_multiset(),
        forall|i: int, j: int| 0 <= i <= j < final(v)@.len() ==> final(v)@[i] <= final(v)@[j],
{
    v.sort();
}

/// The values 3, 5, 4, 1, 2, sorted in place.
pub fn sample_slice_method() -> (chaos: Vec<i32>)
    ensures
        chaos@.to_multiset() == seq![3i32, 5, 4, 1, 2].to_multiset(),
        forall|i: int, j: int| 0 <= i <= j < chaos@.len() ==> chaos@[i] <= chaos@[j],
{
    let mut chaos: Vec<i32> = vec![3, 5, 4, 1, 2];
    sort_values(&mut chaos);
    chaos
}

} // verus!
