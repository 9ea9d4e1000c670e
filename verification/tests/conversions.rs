use bikram::bikram::Bikram;

#[test]
fn new_starts_with_sentinel_date() {
    let b = Bikram::new();
    assert_eq!(b.get_year(), 0);
    assert_eq!(b.get_month(), -1);
    assert_eq!(b.get_day(), 0);
}

#[test]
fn epoch_anchor_gregorian_to_bikram() {
    // the defining anchor: 14 April 1943 is Bikram Sambat 2000-01-01
    let mut b = Bikram::new();
    assert!(b.from_gregorian(1943, 4, 14));
    assert_eq!(b.get_year(), 2000);
    assert_eq!(b.get_month(), 1);
    assert_eq!(b.get_day(), 1);
}

#[test]
fn epoch_anchor_bikram_to_gregorian() {
    let b = Bikram::new();
    assert_eq!(b.to_gregorian(2000, 1, 1), Some((1943, 4, 14)));
}

#[test]
fn first_month_length_matches_table() {
    let b = Bikram::new();
    assert_eq!(b.days_in_month(2000, 1), Some(31));
}

#[test]
fn sample_conversions_both_directions() {
    let mut b = Bikram::new();
    assert!(b.from_gregorian(1985, 1, 1));
    assert_eq!((b.get_year(), b.get_month(), b.get_day()), (2041, 9, 17));
    assert_eq!(b.to_gregorian(2041, 9, 17), Some((1985, 1, 1)));

    assert!(b.from_gregorian(2024, 4, 13));
    assert_eq!((b.get_year(), b.get_month(), b.get_day()), (2080, 12, 30));
    assert_eq!(b.to_gregorian(2081, 1, 1), Some((2024, 4, 14)));
}

#[test]
fn last_tabulated_day() {
    let mut b = Bikram::new();
    assert_eq!(b.days_in_month(2089, 12), Some(31));
    assert_eq!(b.to_gregorian(2089, 12, 31), Some((2033, 4, 14)));
    assert!(b.from_gregorian(2033, 4, 14));
    assert_eq!((b.get_year(), b.get_month(), b.get_day()), (2089, 12, 31));
}

#[test]
fn day_before_epoch_is_not_handled() {
    let mut b = Bikram::new();
    assert!(!b.from_gregorian(1943, 4, 13));
    // the stored date stays untouched on fallback
    assert_eq!(b.get_year(), 0);
    assert_eq!(b.get_month(), -1);
    assert_eq!(b.get_day(), 0);
}

#[test]
fn day_after_table_is_not_handled() {
    let mut b = Bikram::new();
    assert!(!b.from_gregorian(2033, 4, 15));
    assert!(!b.from_gregorian(2300, 1, 1));
    assert_eq!(b.get_month(), -1);
}

#[test]
fn out_of_table_years_signal_fallback() {
    let b = Bikram::new();
    assert_eq!(b.to_gregorian(1999, 12, 30), None);
    assert_eq!(b.to_gregorian(2090, 1, 1), None);
    assert_eq!(b.days_in_month(1999, 12), None);
    assert_eq!(b.days_in_month(2090, 1), None);
}

#[test]
fn table_month_lengths_of_a_middle_year() {
    let b = Bikram::new();
    let expected = [31, 31, 32, 32, 31, 30, 30, 29, 30, 29, 30, 30];
    for m in 1..=12 {
        assert_eq!(b.days_in_month(2041, m), Some(expected[(m - 1) as usize]));
    }
}
