use bikram::astro::{ahar_estimate, kali_year, saura_bikram_date, search_step};
use bikram::bikram::Bikram;
use bikram::jdn::gregorian_to_jdn;

#[test]
fn month_lengths_sum_to_year_length() {
    // the 12 tabulated month lengths of each year span exactly the days
    // from the year's first day to the next year's first day
    let b = Bikram::new();
    for y in 2000..=2089 {
        let mut sum: i64 = 0;
        for m in 1..=12 {
            sum += b.days_in_month(y, m).unwrap() as i64;
        }
        let (gy1, gm1, gd1) = b.to_gregorian(y, 1, 1).unwrap();
        let last = b.days_in_month(y, 12).unwrap();
        let (gy2, gm2, gd2) = b.to_gregorian(y, 12, last).unwrap();
        let span = gregorian_to_jdn(gy2, gm2, gd2) + 1 - gregorian_to_jdn(gy1, gm1, gd1);
        assert_eq!(sum, span, "year {}", y);
    }
}

#[test]
fn year_boundaries_are_continuous() {
    // the first day of each year is the Gregorian day right after the last
    // tabulated day of the previous year
    let b = Bikram::new();
    for y in 2000..2089 {
        let last = b.days_in_month(y, 12).unwrap();
        let (gy1, gm1, gd1) = b.to_gregorian(y, 12, last).unwrap();
        let (gy2, gm2, gd2) = b.to_gregorian(y + 1, 1, 1).unwrap();
        assert_eq!(
            gregorian_to_jdn(gy2, gm2, gd2),
            gregorian_to_jdn(gy1, gm1, gd1) + 1,
            "boundary {} -> {}", y, y + 1
        );
    }
}

#[test]
fn round_trip_every_tabulated_day() {
    let mut b = Bikram::new();
    for y in 2000..=2089 {
        for m in 1..=12 {
            let len = b.days_in_month(y, m).unwrap();
            for d in 1..=len {
                let (gy, gm, gd) = b.to_gregorian(y, m, d).unwrap();
                assert!(b.from_gregorian(gy, gm, gd), "date {}-{}-{}", y, m, d);
                assert_eq!(
                    (b.get_year(), b.get_month(), b.get_day()),
                    (y, m, d),
                    "round trip {}-{}-{}", y, m, d
                );
            }
        }
    }
}

#[test]
fn round_trip_every_gregorian_day_in_span() {
    let mut b = Bikram::new();
    let first = gregorian_to_jdn(1943, 4, 14);
    let last = gregorian_to_jdn(2033, 4, 14);
    for z in first..=last {
        let (gy, gm, gd) = bikram::jdn::jdn_to_gregorian(z);
        assert!(b.from_gregorian(gy, gm, gd));
        let back = b.to_gregorian(b.get_year(), b.get_month(), b.get_day()).unwrap();
        assert_eq!(back, (gy, gm, gd));
    }
}

#[test]
fn mean_motion_year_counts() {
    // Kali year elapsed at the ahargana of the table epoch day
    assert_eq!(kali_year(1842363), 5043);
    // mean-motion start estimate for Bikram Sambat 2000
    assert_eq!(ahar_estimate(2000), 1842365);
}

#[test]
fn saura_date_assembly() {
    let (y, m, d) = saura_bikram_date(1842363, 0, 2);
    assert_eq!((y, m, d), (1999, 1, 2));
    let (y2, m2, d2) = saura_bikram_date(1842363, 11, 30);
    assert_eq!((y2, m2, d2), (1999, 12, 30));
}

#[test]
fn search_steps_toward_target() {
    assert_eq!(search_step(0, 5, 0, 9), 1);
    assert_eq!(search_step(0, 9, 0, 5), -1);
    assert_eq!(search_step(3, 30, 4, 1), 1);
    assert_eq!(search_step(4, 1, 3, 30), -1);
    assert_eq!(search_step(4, 1, 4, 1), -1);
}
