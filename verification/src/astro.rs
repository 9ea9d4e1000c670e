use vstd::prelude::*;
use vstd::arithmetic::div_mod::{
    lemma_div_is_ordered, lemma_fundamental_div_mod, lemma_fundamental_div_mod_converse_div,
};

verus! {

// Integer bookkeeping of the Surya-Siddhanta style fallback engine.  The
// trigonometric solar-longitude model itself works on real numbers and
// lives with the surrounding program; the day counts, mean-motion year
// numbers and search decisions below are exact integer arithmetic and are
// verified here.

/// Sidereal rotations of the sun per yuga (a fixed astronomical constant).
pub const YUGA_ROTATION_SUN: i64 = 4320000;

/// Civil days per yuga: sidereal star rotations (1582237828) minus solar
/// rotations, fixed by construction of the model.
pub const YUGA_CIVIL_DAYS: i64 = 1577917828;

/// Julian Day Number (integer form) of the ahargana epoch: the ahargana of
/// a day is its integer JDN minus this value.  This epoch is far older than
/// the table epoch `BS_EPOCH_JDN` and the two must never be conflated.
pub const AHARGANA_EPOCH_JDN: i64 = 588466;

/// Elapsed mean solar years ("Kali years") at day count `ahar`:
/// `floor(ahar * rotations / civil_days)`.
pub open spec fn kali_year_of(ahar: int) -> int {
    (ahar * YUGA_ROTATION_SUN as int) / YUGA_CIVIL_DAYS as int
}

/// Computes `kali_year_of` on machine integers.
pub fn kali_year(ahar: i64) -> (r: i64)
    requires
        0 <= ahar <= 2_000_000_000,
    ensures
        r == kali_year_of(ahar as int),
        0 <= r <= 6_000_000,
{
    proof {
        assert(ahar * YUGA_ROTATION_SUN as int <= 2_000_000_000int * 4320000)
            by (nonlinear_arith)
            requires 0 <= ahar <= 2_000_000_000;
        assert(ahar * YUGA_ROTATION_SUN as int >= 0) by (nonlinear_arith)
            requires ahar >= 0;
        lemma_div_is_ordered(0, ahar * YUGA_ROTATION_SUN as int, YUGA_CIVIL_DAYS as int);
        lemma_div_is_ordered(ahar * YUGA_ROTATION_SUN as int,
            2_000_000_000int * 4320000, YUGA_CIVIL_DAYS as int);
    }
    ((ahar as u64 * YUGA_ROTATION_SUN as u64) / YUGA_CIVIL_DAYS as u64) as i64
}

/// First ahargana estimate for the inverse conversion of Bikram Sambat year
/// `bs_year`: the start of that year by mean motion, from which the linear
/// search walks to the exact day.
pub fn ahar_estimate(bs_year: i32) -> (r: i64)
    requires
        -3000 <= bs_year <= 10000,
    ensures
        r == ((bs_year - 135 + 3179) * YUGA_CIVIL_DAYS as int)
            / YUGA_ROTATION_SUN as int,
        0 <= r <= 4_800_000_000,
{
    let year_saka: i64 = bs_year as i64 - 135;
    let year_kali: i64 = year_saka + 3179;
    proof {
        assert(year_kali * YUGA_CIVIL_DAYS as int <= 13044int * 1577917828)
            by (nonlinear_arith)
            requires year_kali <= 13044;
        assert(year_kali * YUGA_CIVIL_DAYS as int >= 0) by (nonlinear_arith)
            requires year_kali >= 0;
        lemma_div_is_ordered(0, year_kali * YUGA_CIVIL_DAYS as int,
            YUGA_ROTATION_SUN as int);
        lemma_div_is_ordered(year_kali * YUGA_CIVIL_DAYS as int,
            13044int * 1577917828, YUGA_ROTATION_SUN as int);
    }
    ((year_kali as u64 * YUGA_CIVIL_DAYS as u64) / YUGA_ROTATION_SUN as u64) as i64
}

/// Assembles the Bikram Sambat date at day count `ahar` from the solar
/// month index and day-of-month that the longitude scan found: the year is
/// the mean-motion Kali year shifted to the Saka era and then to Bikram
/// Sambat, the month is the one-based month index.
pub fn saura_bikram_date(ahar: i64, sm_month: i32, sm_day: i32) -> (r: (i32, i32, i32))
    requires
        0 <= ahar <= 2_000_000_000,
        0 <= sm_month <= 11,
        1 <= sm_day <= 64,
    ensures
        r.0 == kali_year_of(ahar as int) - 3179 + 135,
        r.1 == sm_month + 1,
        r.2 == sm_day,
{
    let year_kali = kali_year(ahar);
    let year_saka = year_kali - 3179;
    let year = year_saka + 135;
    (year as i32, sm_month + 1, sm_day)
}

/// Decision of one step of the inverse linear search: step forward while
/// the scanned `(month, day)` is lexicographically before the target, else
/// backward.
pub fn search_step(sm_month: i32, sm_day: i32, target_month: i32, target_day: i32)
    -> (step: i64)
    ensures
        step == if sm_month < target_month
            || (sm_month == target_month && sm_day < target_day) { 1int } else { -1int },
{
    if sm_month < target_month || (sm_month == target_month && sm_day < target_day) {
        1
    } else {
        -1
    }
}

} // verus!
