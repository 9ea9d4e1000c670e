use vstd::prelude::*;
use vstd::arithmetic::div_mod::{
    lemma_fundamental_div_mod, lemma_fundamental_div_mod_converse_div,
    lemma_fundamental_div_mod_converse_mod, lemma_mod_bound,
};
use crate::jdn::{greg_month_len, greg_to_jdn, is_greg_leap_year, jdn_to_greg, valid_greg};

verus! {

// Round-trip law of the Julian Day Number converter.  The proof names the
// quotient and remainder of every division both algorithms perform and
// shows that the inverse recovers each intermediate of the forward
// computation exactly; the leap-day structure of the calendar enters only
// at the 29 February corner, where the bounds of two divisions are tight.

/// Shifted-month term `(306001 (mm+1)) / 10000` of the forward conversion,
/// with its remainder, for each shifted month `mm` in `3 ..= 14`.
pub(crate) proof fn lemma_month_term(mm: int) -> (tr: (int, int))
    requires
        3 <= mm <= 14,
    ensures
        tr.0 == (306001 * (mm + 1)) / 10000,
        tr.1 == 306001 * (mm + 1) - 10000 * tr.0,
        0 <= tr.1 < 10000,
        122 <= tr.0 <= 459,
        tr.0 == if mm == 3 { 122int } else if mm == 4 { 153int } else if mm == 5 { 183int }
            else if mm == 6 { 214int } else if mm == 7 { 244int } else if mm == 8 { 275int }
            else if mm == 9 { 306int } else if mm == 10 { 336int } else if mm == 11 { 367int }
            else if mm == 12 { 397int } else if mm == 13 { 428int } else { 459int },
{
    let t: int = if mm == 3 { 122 } else if mm == 4 { 153 } else if mm == 5 { 183 }
        else if mm == 6 { 214 } else if mm == 7 { 244 } else if mm == 8 { 275 }
        else if mm == 9 { 306 } else if mm == 10 { 336 } else if mm == 11 { 367 }
        else if mm == 12 { 397 } else if mm == 13 { 428 } else { 459 };
    let r = 306001 * (mm + 1) - 10000 * t;
    lemma_fundamental_div_mod_converse_div(306001 * (mm + 1), 10000, t, r);
    (t, r)
}

/// The Gregorian-to-JDN conversion followed by the JDN-to-Gregorian
/// conversion returns the day it started from, for every valid date on or
/// after the Gregorian reform day (15 October 1582, JDN 2299161); before
/// that day the inverse reads the number as a Julian-calendar date and the
/// law does not hold.
pub proof fn lemma_jdn_round_trip(y: int, m: int, d: int)
    requires
        valid_greg(y, m, d),
        1582 <= y <= 9999,
        greg_to_jdn(y, m, d) >= 2299161,
    ensures
        jdn_to_greg(greg_to_jdn(y, m, d)) == (y, m, d),
{
    let yy = if m <= 2 { y - 1 } else { y };
    let mm = if m <= 2 { m + 12 } else { m };
    let z = greg_to_jdn(y, m, d);

    // named remainders of the forward divisions
    lemma_fundamental_div_mod(yy, 100);
    lemma_mod_bound(yy, 100);
    let a = yy / 100;
    let s = yy % 100;
    lemma_fundamental_div_mod(a, 4);
    lemma_mod_bound(a, 4);
    let qa = a / 4;
    let ra = a % 4;
    let yp = yy + 4716;
    lemma_fundamental_div_mod(1461 * yp, 4);
    lemma_mod_bound(1461 * yp, 4);
    let q1 = (1461 * yp) / 4;
    let r1 = (1461 * yp) % 4;
    // 1461 yp = 4 (365 yp) + yp, so r1 is yp mod 4, which is s mod 4
    lemma_fundamental_div_mod(yp, 4);
    lemma_mod_bound(yp, 4);
    assert(1461 * yp == 4 * (365 * yp + yp / 4) + yp % 4) by (nonlinear_arith)
        requires yp == 4 * (yp / 4) + yp % 4;
    lemma_fundamental_div_mod_converse_mod(1461 * yp, 4, 365 * yp + yp / 4, yp % 4);
    lemma_fundamental_div_mod(s, 4);
    lemma_mod_bound(s, 4);
    lemma_fundamental_div_mod_converse_mod(yp, 4, 25 * a + 1179 + s / 4, s % 4);
    assert(r1 == s % 4);

    let tr = lemma_month_term(mm);
    let t = tr.0;
    assert(z == q1 + t + d + 2 - a + qa - 1524);

    // leap-day corner facts
    if m == 2 && d == 29 {
        assert(is_greg_leap_year(y));
        let k = y / 4;
        lemma_fundamental_div_mod(y, 4);
        assert(y == 4 * k);
        lemma_fundamental_div_mod_converse_mod(yy, 4, k - 1, 3);
        assert(yy % 4 == 3);
        assert(s % 4 == 3) by {
            lemma_fundamental_div_mod_converse_mod(yy, 4, 25 * a + s / 4, s % 4);
        }
        assert(r1 == 3);
        if s == 99 {
            // a century year: y = 100 (a + 1); it is leap only as a multiple
            // of 400, which forces a mod 4 == 3
            assert(y == 100 * (a + 1));
            lemma_fundamental_div_mod_converse_mod(y, 100, a + 1, 0);
            assert(y % 100 == 0);
            assert(y % 400 == 0);
            let j = y / 400;
            lemma_fundamental_div_mod(y, 400);
            assert(100 * (a + 1) == 400 * j);
            assert(a + 1 == 4 * j) by (nonlinear_arith)
                requires 100 * (a + 1) == 400 * j;
            lemma_fundamental_div_mod_converse_mod(a, 4, j - 1, 3);
            assert(ra == 3);
        }
    }

    // step 1: the inverse's century count alpha equals a - 4
    let rr = 146100 * s - 100 * r1 + 400 * t + 400 * d - 100 * ra - 48900;
    assert(400 * z - 746886500 == 14609700 * (a - 4) + rr) by (nonlinear_arith)
        requires
            z == q1 + t + d + 2 - a + qa - 1524,
            4 * q1 == 1461 * yp - r1,
            yp == 100 * a + s + 4716,
            4 * qa == a - ra,
            rr == 146100 * s - 100 * r1 + 400 * t + 400 * d - 100 * ra - 48900;
    assert(0 <= rr < 14609700) by {
        if s == 0 {
            assert(r1 == 0);
        }
        if s == 99 && t == 459 && d >= 29 {
            // only 29 February of a century year reaches here
            assert(m == 2 && d == 29);
            assert(ra == 3);
        }
        if s == 99 && t < 459 {
            assert(t <= 428);
        }
    };
    lemma_fundamental_div_mod_converse_div(400 * z - 746886500, 14609700, a - 4, rr);
    let alpha = (400 * z - 746886500) / 14609700;
    assert(alpha == a - 4);
    lemma_fundamental_div_mod_converse_div(alpha, 4, qa - 1, ra);
    assert(alpha / 4 == qa - 1);

    let b2 = z + 1 + alpha - alpha / 4 + 1524;
    assert(b2 == q1 + t + d);

    // step 2: the inverse's year count c equals the shifted year yy + 4716
    let vv = 100 * t + 100 * d - 25 * r1 - 12210;
    assert(100 * b2 - 12210 == 36525 * yp + vv) by (nonlinear_arith)
        requires
            b2 == q1 + t + d,
            4 * q1 == 1461 * yp - r1,
            vv == 100 * t + 100 * d - 25 * r1 - 12210;
    assert(0 <= vv < 36525) by {
        if t == 459 && d >= 29 {
            assert(m == 2 && d == 29);
            assert(r1 == 3);
        }
        if t < 459 {
            assert(t <= 428);
        }
    };
    lemma_fundamental_div_mod_converse_div(100 * b2 - 12210, 36525, yp, vv);
    let c = (100 * b2 - 12210) / 36525;
    assert(c == yp);

    // step 3: the inverse's day-of-year split recovers the month term
    let dd = (1461 * c) / 4;
    assert(dd == q1);
    assert(b2 - dd == t + d);
    let xx = 10000 * (t + d) - 306001 * (mm + 1);
    assert(0 <= xx < 306001) by {
        assert(10000 * t == 306001 * (mm + 1) - tr.1);
        assert(d <= greg_month_len(y, m));
        if mm == 4 || mm == 6 || mm == 9 || mm == 11 {
            assert(m == mm && d <= 30);
        }
        if mm == 14 {
            assert(m == 2 && d <= 29);
        }
    };
    lemma_fundamental_div_mod_converse_div(10000 * (b2 - dd), 306001, mm + 1, xx);
    let e = (10000 * (b2 - dd)) / 306001;
    assert(e == mm + 1);
    assert((306001 * e) / 10000 == t) by {
        lemma_fundamental_div_mod_converse_div(306001 * (mm + 1), 10000, t, tr.1);
    };
    assert(b2 - dd - (306001 * e) / 10000 == d);

    // step 4: assemble month and year
    if mm <= 12 {
        assert(e < 14);
        assert(e - 1 == m);
        assert(m > 2);
        assert(c - 4716 == y);
    } else {
        assert(e >= 14);
        assert(e - 13 == m);
        assert(m <= 2);
        assert(c - 4715 == y);
    }
}

/// The calendar day after `(y, m, d)`.
pub open spec fn greg_succ(y: int, m: int, d: int) -> (int, int, int) {
    if d < greg_month_len(y, m) {
        (y, m, d + 1)
    } else if m < 12 {
        (y, m + 1, 1)
    } else {
        (y + 1, 1, 1)
    }
}

/// The remainder of `1461 x` by 4 equals the remainder of `x` by 4.
proof fn lemma_r1461(x: int)
    requires
        x >= 0,
    ensures
        (1461 * x) % 4 == x % 4,
        1461 * x == 4 * ((1461 * x) / 4) + x % 4,
{
    lemma_fundamental_div_mod(x, 4);
    lemma_mod_bound(x, 4);
    assert(1461 * x == 4 * (365 * x + x / 4) + x % 4) by (nonlinear_arith)
        requires x == 4 * (x / 4) + x % 4;
    lemma_fundamental_div_mod_converse_mod(1461 * x, 4, 365 * x + x / 4, x % 4);
    lemma_fundamental_div_mod(1461 * x, 4);
}

/// Moving to the next calendar day raises the Julian Day Number by one.
pub proof fn lemma_succ_jdn(y: int, m: int, d: int)
    requires
        valid_greg(y, m, d),
        1582 <= y <= 9999,
        !(y == 9999 && m == 12 && d == 31),
    ensures
        ({
            let (y2, m2, d2) = greg_succ(y, m, d);
            &&& valid_greg(y2, m2, d2)
            &&& 1582 <= y2 <= 9999
            &&& greg_to_jdn(y2, m2, d2) == greg_to_jdn(y, m, d) + 1
        }),
{
    if d < greg_month_len(y, m) {
        // same month: the formula is linear in the day
    } else if m == 1 {
        let t1 = lemma_month_term(13);
        let t2 = lemma_month_term(14);
    } else if m == 2 {
        // February to March: the shifted year advances from y-1 to y
        let t1 = lemma_month_term(14);
        let t2 = lemma_month_term(3);
        let yp1 = y + 4715;
        let yp2 = y + 4716;
        lemma_r1461(yp1);
        lemma_r1461(yp2);
        lemma_fundamental_div_mod(yp1, 4);
        lemma_mod_bound(yp1, 4);
        lemma_fundamental_div_mod(yp2, 4);
        lemma_mod_bound(yp2, 4);
        let q1 = (1461 * yp1) / 4;
        let q2 = (1461 * yp2) / 4;
        // relate the two shifted-year quotients through the remainders
        assert(4 * q2 - 4 * q1 == 1461 + yp1 % 4 - yp2 % 4);
        if yp1 % 4 == 3 {
            lemma_fundamental_div_mod_converse_mod(yp2, 4, yp1 / 4 + 1, 0);
            assert(q2 - q1 == 366);
        } else {
            lemma_fundamental_div_mod_converse_mod(yp2, 4, yp1 / 4, yp1 % 4 + 1);
            assert(q2 - q1 == 365);
        }
        // relate the two century counts
        let a1 = (y - 1) / 100;
        let s1 = (y - 1) % 100;
        lemma_fundamental_div_mod(y - 1, 100);
        lemma_mod_bound(y - 1, 100);
        let a2 = y / 100;
        if s1 < 99 {
            lemma_fundamental_div_mod_converse_div(y, 100, a1, s1 + 1);
            lemma_fundamental_div_mod_converse_mod(y, 100, a1, s1 + 1);
            assert(a2 == a1);
            assert(y % 100 != 0);
        } else {
            lemma_fundamental_div_mod_converse_div(y, 100, a1 + 1, 0);
            lemma_fundamental_div_mod_converse_mod(y, 100, a1 + 1, 0);
            assert(a2 == a1 + 1);
            assert(y % 100 == 0);
        }
        // mod-4 structure of the year and of the century count
        lemma_fundamental_div_mod(y, 4);
        lemma_mod_bound(y, 4);
        if y % 4 == 0 {
            lemma_fundamental_div_mod_converse_mod(yp1, 4, y / 4 + 1178, 3);
            assert(yp1 % 4 == 3);
        } else {
            lemma_fundamental_div_mod_converse_mod(yp1, 4, y / 4 + 1179, y % 4 - 1);
            assert(yp1 % 4 == y % 4 - 1);
        }
        lemma_fundamental_div_mod(a1, 4);
        lemma_mod_bound(a1, 4);
        lemma_fundamental_div_mod(a2, 4);
        lemma_mod_bound(a2, 4);
        if y % 100 == 0 {
            // a century year: y = 100 a2, and y mod 400 tracks a2 mod 4
            assert(y == 100 * a2);
            lemma_fundamental_div_mod(y, 400);
            lemma_mod_bound(y, 400);
            let qq = y / 400;
            let rq = y % 400;
            assert(100 * a2 == 400 * qq + rq);
            if y % 400 == 0 {
                assert(a2 == 4 * qq) by (nonlinear_arith)
                    requires 100 * a2 == 400 * qq;
                lemma_fundamental_div_mod_converse_div(a2, 4, qq, 0);
                lemma_fundamental_div_mod_converse_div(a1, 4, qq - 1, 3);
                assert(is_greg_leap_year(y));
                assert(a2 / 4 == a1 / 4 + 1);
            } else {
                // rq is a positive multiple of 100 below 400
                assert(4 * qq < a2 < 4 * (qq + 1)) by (nonlinear_arith)
                    requires 100 * a2 == 400 * qq + rq, 0 < rq < 400;
                assert(a2 == 4 * qq + 1 || a2 == 4 * qq + 2 || a2 == 4 * qq + 3);
                if a2 == 4 * qq + 1 {
                    lemma_fundamental_div_mod_converse_div(a2, 4, qq, 1);
                    lemma_fundamental_div_mod_converse_div(a1, 4, qq, 0);
                } else if a2 == 4 * qq + 2 {
                    lemma_fundamental_div_mod_converse_div(a2, 4, qq, 2);
                    lemma_fundamental_div_mod_converse_div(a1, 4, qq, 1);
                } else {
                    lemma_fundamental_div_mod_converse_div(a2, 4, qq, 3);
                    lemma_fundamental_div_mod_converse_div(a1, 4, qq, 2);
                }
                assert(!is_greg_leap_year(y));
                assert(a2 / 4 == a1 / 4);
            }
            // a century year is divisible by 4
            assert(y % 4 == 0) by {
                lemma_fundamental_div_mod_converse_mod(y, 4, 25 * a2, 0);
            };
        }
    } else if m < 12 {
        let t1 = lemma_month_term(m);
        let t2 = lemma_month_term(m + 1);
    } else {
        // December to January: the shifted year y stays, the month term moves
        let t1 = lemma_month_term(12);
        let t2 = lemma_month_term(13);
    }
}

/// Evaluates the conversion at the two endpoints of the supported span.
proof fn lemma_jdn_endpoints()
    ensures
        greg_to_jdn(1582, 10, 15) == 2299161,
        greg_to_jdn(9999, 12, 31) == 5373484,
{
    lemma_fundamental_div_mod_converse_div(1582, 100, 15, 82);
    lemma_fundamental_div_mod_converse_div(15, 4, 3, 3);
    lemma_fundamental_div_mod_converse_div(1461int * 6298, 4, 2300344, 2);
    let t1 = lemma_month_term(10);
    lemma_fundamental_div_mod_converse_div(9999, 100, 99, 99);
    lemma_fundamental_div_mod_converse_div(99, 4, 24, 3);
    lemma_fundamental_div_mod_converse_div(1461int * 14715, 4, 5374653, 3);
    let t2 = lemma_month_term(12);
}

/// Every Julian Day Number between the reform day and the last day of year
/// 9999 is the number of exactly one valid Gregorian date; this returns it.
pub proof fn lemma_jdn_surjective(z: int) -> (g: (int, int, int))
    requires
        2299161 <= z <= 5373484,
    ensures
        valid_greg(g.0, g.1, g.2),
        1582 <= g.0 <= 9999,
        greg_to_jdn(g.0, g.1, g.2) == z,
    decreases z,
{
    lemma_jdn_endpoints();
    if z == 2299161 {
        (1582, 10, 15)
    } else {
        let g0 = lemma_jdn_surjective(z - 1);
        if g0.0 == 9999 && g0.1 == 12 && g0.2 == 31 {
            assert(false);
        }
        lemma_succ_jdn(g0.0, g0.1, g0.2);
        greg_succ(g0.0, g0.1, g0.2)
    }
}

/// Converting a Julian Day Number in the supported span to its Gregorian
/// date and back returns the same number, and the date produced is valid.
pub proof fn lemma_jdn_inverse(z: int)
    requires
        2299161 <= z <= 5373484,
    ensures
        ({
            let g = jdn_to_greg(z);
            &&& valid_greg(g.0, g.1, g.2)
            &&& 1582 <= g.0 <= 9999
            &&& greg_to_jdn(g.0, g.1, g.2) == z
        }),
{
    let g = lemma_jdn_surjective(z);
    lemma_jdn_round_trip(g.0, g.1, g.2);
}

} // verus!
