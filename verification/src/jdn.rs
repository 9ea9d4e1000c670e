use vstd::prelude::*;
use vstd::arithmetic::div_mod::{
    lemma_div_is_ordered, lemma_fundamental_div_mod, lemma_fundamental_div_mod_converse_div,
    lemma_div_denominator,
};

verus! {

// The Julian Day Number arithmetic below follows the classical Meeus
// formulas.  A Julian Date by convention carries a fractional part of one
// half (days begin at noon); for whole calendar days that half never
// interacts with the integer bookkeeping, so every function here works with
// the integer `z = floor(jd + 1/2)` instead of the real-valued `jd`.
// All spec-level `/` below is Euclidean division, which for the positive
// divisors used here coincides with mathematical floor division.

/// Whether `y` is a leap year of the proleptic Gregorian calendar.
pub open spec fn is_greg_leap_year(y: int) -> bool {
    y % 4 == 0 && (y % 100 != 0 || y % 400 == 0)
}

/// Length in days of month `m` of Gregorian year `y`.
pub open spec fn greg_month_len(y: int, m: int) -> int {
    if m == 2 {
        if is_greg_leap_year(y) { 29 } else { 28 }
    } else if m == 4 || m == 6 || m == 9 || m == 11 {
        30
    } else {
        31
    }
}

/// Whether `(y, m, d)` names a day of the proleptic Gregorian calendar.
pub open spec fn valid_greg(y: int, m: int, d: int) -> bool {
    1 <= m <= 12 && 1 <= d <= greg_month_len(y, m)
}

/// Integer Julian Day Number of Gregorian `(y, m, d)`: January and February
/// count as months 13 and 14 of the previous year, then the standard
/// century correction `b = 2 - a + a/4` with `a = floor(y/100)` is applied.
pub open spec fn greg_to_jdn(y: int, m: int, d: int) -> int {
    let yy = if m <= 2 { y - 1 } else { y };
    let mm = if m <= 2 { m + 12 } else { m };
    let a = yy / 100;
    let b = 2 - a + a / 4;
    (1461 * (yy + 4716)) / 4 + (306001 * (mm + 1)) / 10000 + d + b - 1524
}

/// Gregorian date `(year, month, day)` of the integer Julian Day Number `z`,
/// by the standard inverse algorithm; below the Gregorian reform day
/// (`z < 2299161`, 15 October 1582) the leap correction is skipped and the
/// result is a Julian-calendar date.
pub open spec fn jdn_to_greg(z: int) -> (int, int, int) {
    let a = if z < 2299161 {
        z
    } else {
        let alpha = (400 * z - 746886500) / 14609700;
        z + 1 + alpha - alpha / 4
    };
    let b = a + 1524;
    let c = (100 * b - 12210) / 36525;
    let d = (1461 * c) / 4;
    let e = (10000 * (b - d)) / 306001;
    let day = b - d - (306001 * e) / 10000;
    let month = if e < 14 { e - 1 } else { e - 13 };
    let year = if month > 2 { c - 4716 } else { c - 4715 };
    (year, month, day)
}

/// Computes `greg_to_jdn` on machine integers.
pub fn gregorian_to_jdn(y: i32, m: i32, d: i32) -> (j: i64)
    requires
        -4712 <= y <= 9999,
        1 <= m <= 12,
        1 <= d <= 31,
    ensures
        j == greg_to_jdn(y as int, m as int, d as int),
        0 < j < 6_000_000,
{
    let (yy, mm): (i64, i64) = if m <= 2 {
        ((y - 1) as i64, (m + 12) as i64)
    } else {
        (y as i64, m as i64)
    };
    proof {
        lemma_fundamental_div_mod(yy + 500_000, 100);
        lemma_fundamental_div_mod_converse_div(
            yy + 500_000, 100, yy as int / 100 + 5000, (yy as int) % 100);
    }
    let a: i64 = ((yy + 500_000) as u64 / 100) as i64 - 5000;
    proof {
        assert(a == yy as int / 100);
        lemma_fundamental_div_mod(a + 5000, 4);
        lemma_fundamental_div_mod_converse_div(a + 5000, 4, a as int / 4 + 1250, (a as int) % 4);
    }
    let a4: i64 = ((a + 5000) as u64 / 4) as i64 - 1250;
    let b: i64 = 2 - a + a4;
    proof {
        assert(1461 * (yy + 4716) >= 0) by (nonlinear_arith)
            requires yy >= -4713;
        assert(1461 * (yy + 4716) <= 1461int * 14715) by (nonlinear_arith)
            requires yy <= 9999;
    }
    let t1: i64 = ((1461 * (yy + 4716)) as u64 / 4) as i64;
    let t2: i64 = ((306001 * (mm + 1)) as u64 / 10000) as i64;
    proof {
        lemma_div_is_ordered(0, 1461 * (yy + 4716), 4);
        lemma_div_is_ordered(1461 * (yy + 4716), 1461int * 14715, 4);
        lemma_div_is_ordered(306001int * 4, 306001 * (mm + 1), 10000);
        lemma_div_is_ordered(306001 * (mm + 1), 306001int * 15, 10000);
    }
    t1 + t2 + d as i64 + b - 1524
}

/// Computes `jdn_to_greg` on machine integers.
pub fn jdn_to_gregorian(z: i64) -> (r: (i32, i32, i32))
    requires
        1 <= z < 6_000_000,
    ensures
        (r.0 as int, r.1 as int, r.2 as int) == jdn_to_greg(z as int),
{
    let a: i64 = if z < 2299161 {
        z
    } else {
        let alpha: i64 = ((400 * z - 746886500) as u64 / 14609700) as i64;
        proof {
            lemma_div_is_ordered(0, 400 * z - 746886500, 14609700);
            lemma_div_is_ordered(400 * z - 746886500, 400int * 6_000_000, 14609700);
            lemma_fundamental_div_mod(alpha as int, 4);
        }
        let alpha4: i64 = (alpha as u64 / 4) as i64;
        z + 1 + alpha - alpha4
    };
    let b: i64 = a + 1524;
    proof {
        lemma_div_is_ordered(0, 100 * b - 12210, 36525);
        lemma_div_is_ordered(100 * b - 12210, 100int * 6_200_000, 36525);
    }
    let c: i64 = ((100 * b - 12210) as u64 / 36525) as i64;
    proof {
        assert(1461 * c >= 0) by (nonlinear_arith)
            requires c >= 0;
        assert(1461 * c <= 1461int * 17000) by (nonlinear_arith)
            requires c <= 17000;
    }
    let dd: i64 = ((1461 * c) as u64 / 4) as i64;
    proof {
        lemma_dd_below_b(b as int);
        lemma_div_is_ordered(0, 1461 * c, 4);
    }
    let e: i64 = ((10000 * (b - dd)) as u64 / 306001) as i64;
    proof {
        lemma_div_is_ordered(0, 10000 * (b - dd), 306001);
        lemma_div_is_ordered(10000 * (b - dd), 10000int * 6_300_000, 306001);
        assert(306001 * e >= 0) by (nonlinear_arith)
            requires e >= 0;
        assert(306001 * e <= 306001int * 300_000) by (nonlinear_arith)
            requires e <= 300_000;
        // 306001 * e <= 10000 * (b - dd), so the day term cannot exceed b - dd
        lemma_fundamental_div_mod(10000 * (b - dd), 306001);
        assert(306001 * e <= 10000 * (b - dd)) by (nonlinear_arith)
            requires
                e == (10000 * (b - dd)) / 306001,
                306001 * ((10000 * (b - dd)) / 306001) + (10000 * (b - dd)) % 306001
                    == 10000 * (b - dd),
                (10000 * (b - dd)) % 306001 >= 0;
        lemma_div_is_ordered(306001 * e, 10000 * (b - dd), 10000);
        lemma_div_denominator_exact(b - dd);
    }
    let day: i64 = b - dd - ((306001 * e) as u64 / 10000) as i64;
    let month: i64 = if e < 14 { e - 1 } else { e - 13 };
    let year: i64 = if month > 2 { c - 4716 } else { c - 4715 };
    (year as i32, month as i32, day as i32)
}

/// `(10000 x) / 10000 == x` for nonnegative `x`.
proof fn lemma_div_denominator_exact(x: int)
    requires
        x >= 0,
    ensures
        (10000 * x) / 10000 == x,
{
    lemma_fundamental_div_mod_converse_div(10000 * x, 10000, x, 0);
}

/// In the inverse algorithm the running value `d = (1461 c)/4` with
/// `c = (100 b - 12210)/36525` stays at least 123 below `b`.
proof fn lemma_dd_below_b(b: int)
    requires
        b >= 1525,
    ensures
        (1461 * ((100 * b - 12210) / 36525)) / 4 <= b - 123,
{
    let c = (100 * b - 12210) / 36525;
    lemma_fundamental_div_mod(100 * b - 12210, 36525);
    assert(36525 * c <= 100 * b - 12210) by (nonlinear_arith)
        requires
            36525 * ((100 * b - 12210) / 36525) + (100 * b - 12210) % 36525 == 100 * b - 12210,
            (100 * b - 12210) % 36525 >= 0,
            c == (100 * b - 12210) / 36525;
    // hence 1461 c <= (100 b - 12210)/25 and (1461 c)/4 <= (100 b - 12210)/100
    assert(25 * (1461 * c) == 36525 * c) by (nonlinear_arith);
    lemma_div_is_ordered(25 * (1461 * c), 100 * b - 12210, 25);
    lemma_fundamental_div_mod_converse_div(25 * (1461 * c), 25, 1461 * c, 0);
    lemma_div_is_ordered(1461 * c, (100 * b - 12210) / 25, 4);
    lemma_div_denominator(100 * b - 12210, 25, 4);
    lemma_fundamental_div_mod_converse_div(100 * b - 12210, 100, b - 123, 90);
}

} // verus!
