use bikram::jdn::{gregorian_to_jdn, jdn_to_gregorian};

#[test]
fn known_julian_day_numbers() {
    assert_eq!(gregorian_to_jdn(1943, 4, 14), 2430829);
    assert_eq!(gregorian_to_jdn(2000, 1, 1), 2451545);
    assert_eq!(gregorian_to_jdn(1582, 10, 15), 2299161);
    assert_eq!(jdn_to_gregorian(2451545), (2000, 1, 1));
    assert_eq!(jdn_to_gregorian(2299161), (1582, 10, 15));
}

#[test]
fn leap_day_handling() {
    assert_eq!(jdn_to_gregorian(gregorian_to_jdn(2000, 2, 29)), (2000, 2, 29));
    assert_eq!(jdn_to_gregorian(gregorian_to_jdn(1996, 2, 29)), (1996, 2, 29));
    // 1900 is not a leap year: 28 February is followed by 1 March
    assert_eq!(
        gregorian_to_jdn(1900, 3, 1),
        gregorian_to_jdn(1900, 2, 28) + 1
    );
    // 2000 is a leap year: 29 February sits between
    assert_eq!(
        gregorian_to_jdn(2000, 3, 1),
        gregorian_to_jdn(2000, 2, 28) + 2
    );
}

#[test]
fn julian_day_involution_over_wide_range() {
    // every valid Gregorian date from 1583 through 3000 comes back unchanged
    let month_days = [31, 28, 31, 30, 31, 30, 31, 31, 30, 31, 30, 31];
    for y in 1583..=3000 {
        let leap = y % 4 == 0 && (y % 100 != 0 || y % 400 == 0);
        for m in 1..=12 {
            let len = if m == 2 && leap { 29 } else { month_days[(m - 1) as usize] };
            for d in 1..=len {
                let z = gregorian_to_jdn(y, m, d);
                assert_eq!(jdn_to_gregorian(z), (y, m, d), "date {}-{}-{}", y, m, d);
            }
        }
    }
}

#[test]
fn julian_day_numbers_are_consecutive() {
    // the inverse side: consecutive numbers give consecutive calendar days
    let mut prev = jdn_to_gregorian(2299161);
    for z in 2299162..2399162 {
        let g = jdn_to_gregorian(z);
        assert_eq!(gregorian_to_jdn(g.0, g.1, g.2), z);
        assert_ne!(g, prev);
        prev = g;
    }
}

#[test]
fn before_the_reform_the_inverse_reads_julian_dates() {
    // below JDN 2299161 the inverse produces Julian-calendar dates, so the
    // round trip does not return proleptic Gregorian input there
    assert_eq!(jdn_to_gregorian(gregorian_to_jdn(1500, 1, 1)), (1499, 12, 23));
}
