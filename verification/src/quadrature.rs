//! The grid on which the spectra are sampled for the rectangle rule.
//!
//! Positions are counted in whole steps of `1 / SAMPLES_PER_NM` nanometres, so
//! that the grid itself is exact; the caller divides by `SAMPLES_PER_NM` to
//! get a wavelength and weighs every sample by the same factor.
use vstd::prelude::*;

verus! {

/// Shortest wavelength of the integration range, in nanometres.
pub const FIRST_NM: u32 = 350;

/// Longest wavelength of the integration range, in nanometres (inclusive).
pub const LAST_NM: u32 = 800;

/// Number of evaluation points per nanometre.
pub const SAMPLES_PER_NM: u32 = 10;

/// Number of samples: one per step, both ends of the range included.
pub open spec fn count() -> int {
    (LAST_NM - FIRST_NM) * SAMPLES_PER_NM + 1
}

/// Position of sample `k`, in steps from wavelength zero.
pub open spec fn position_of(k: int) -> int {
    FIRST_NM * SAMPLES_PER_NM + k
}

/// How many points the spectra are evaluated at.
pub fn sample_count() -> (n: u32)
    ensures
        n == count(),
        n == 4501,
{
    (LAST_NM - FIRST_NM) * SAMPLES_PER_NM + 1
}

/// Position of the `k`-th evaluation point, in steps of `1 / SAMPLES_PER_NM`
/// nanometres, or `None` once `k` has run past the last one.
pub fn sample_position(k: u32) -> (t: Option<u32>)
    ensures
        k < count() ==> t == Some(position_of(k as int) as u32),
        k >= count() ==> t is None,
        t is Some ==> FIRST_NM * SAMPLES_PER_NM <= t->0 <= LAST_NM * SAMPLES_PER_NM,
{
    if k < sample_count() {
        Some(FIRST_NM * SAMPLES_PER_NM + k)
    } else {
        None
    }
}

/// The samples start at the lower end of the range, stop at its upper end,
/// and lie one step apart.
pub proof fn lemma_grid_covers_range(k: int)
    requires
        0 <= k < count() - 1,
    ensures
        position_of(0) == FIRST_NM * SAMPLES_PER_NM,
        position_of(count() - 1) == LAST_NM * SAMPLES_PER_NM,
        position_of(k + 1) == position_of(k) + 1,
{
}

} // verus!
