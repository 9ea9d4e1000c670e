use vstd::prelude::*;
use crate::jdn;
use crate::table;
use crate::table::{
    bs_offset, bs_valid, lemma_month_sum_bounds, lemma_year_sum_bounds, month_sum,
    wf_table, year_sum, TABLE_YEAR_COUNT,
};

verus! {

/// Converter between the proleptic Gregorian calendar and the Bikram Sambat
/// calendar.  It carries the month-length table for the tabulated years and
/// the most recently computed Bikram Sambat date.
pub struct Bikram {
    year: i32,
    month: i32,
    day: i32,
    rows: Vec<u16>,
}

impl Bikram {
    /// The flat month-length table this converter carries.
    pub closed spec fn table(self) -> Seq<u16> {
        self.rows@
    }

    /// The year component of the most recently computed Bikram Sambat date.
    pub closed spec fn bs_year(self) -> int {
        self.year as int
    }

    /// The month component of the most recently computed Bikram Sambat date.
    pub closed spec fn bs_month(self) -> int {
        self.month as int
    }

    /// The day component of the most recently computed Bikram Sambat date.
    pub closed spec fn bs_day(self) -> int {
        self.day as int
    }

    /// The converter is well formed when its table is.
    pub open spec fn wf(self) -> bool {
        wf_table(self.table())
    }

    /// Builds a converter with the full month-length table and no computed
    /// date yet (the month field starts at the `-1` sentinel).
    pub fn new() -> (s: Self)
        ensures
            s.wf(),
            s.bs_year() == 0,
            s.bs_month() == -1,
            s.bs_day() == 0,
    {
        let mut v: Vec<u16> = Vec::new();
        proof {
            assert(v@.len() as int / 13 == 0);
            assert(table::wf_prefix(v@, 0));
        }
        table::push_row(&mut v, [31, 32, 31, 32, 31, 30, 30, 30, 29, 30, 29, 31]);
        table::push_row(&mut v, [31, 31, 32, 31, 31, 31, 30, 29, 29, 30, 30, 30]);
        table::push_row(&mut v, [31, 31, 32, 31, 32, 30, 30, 29, 30, 29, 30, 30]);
        table::push_row(&mut v, [31, 32, 31, 32, 31, 30, 30, 30, 29, 29, 30, 31]);
        table::push_row(&mut v, [30, 32, 32, 31, 31, 30, 30, 30, 29, 30, 29, 31]);
        table::push_row(&mut v, [31, 31, 32, 31, 31, 31, 30, 29, 29, 30, 30, 30]);
        table::push_row(&mut v, [31, 31, 32, 32, 31, 30, 30, 29, 30, 29, 30, 30]);
        table::push_row(&mut v, [31, 32, 31, 32, 31, 30, 30, 30, 29, 29, 30, 31]);
        table::push_row(&mut v, [30, 32, 32, 31, 31, 31, 29, 30, 29, 30, 29, 31]);
        table::push_row(&mut v, [31, 31, 32, 31, 31, 31, 30, 29, 29, 30, 30, 30]);
        table::push_row(&mut v, [31, 31, 32, 32, 31, 30, 30, 29, 30, 29, 30, 30]);
        table::push_row(&mut v, [31, 32, 31, 32, 31, 30, 30, 30, 29, 29, 30, 31]);
        table::push_row(&mut v, [31, 31, 32, 31, 31, 31, 29, 30, 29, 30, 29, 31]);
        table::push_row(&mut v, [31, 31, 32, 31, 31, 31, 30, 29, 30, 29, 30, 30]);
        table::push_row(&mut v, [31, 31, 32, 32, 31, 30, 30, 29, 30, 29, 30, 30]);
        table::push_row(&mut v, [31, 32, 31, 32, 31, 30, 30, 30, 29, 29, 30, 31]);
        table::push_row(&mut v, [31, 31, 32, 31, 31, 31, 29, 30, 29, 30, 30, 30]);
        table::push_row(&mut v, [31, 31, 32, 31, 31, 31, 30, 29, 30, 29, 30, 30]);
        table::push_row(&mut v, [31, 32, 31, 32, 31, 30, 30, 29, 30, 29, 30, 30]);
        table::push_row(&mut v, [31, 32, 31, 32, 31, 30, 30, 30, 29, 29, 30, 31]);
        table::push_row(&mut v, [31, 31, 32, 31, 31, 31, 30, 29, 29, 30, 30, 30]);
        table::push_row(&mut v, [31, 31, 32, 31, 31, 31, 30, 29, 30, 29, 30, 30]);
        table::push_row(&mut v, [31, 32, 31, 32, 31, 30, 30, 30, 29, 29, 30, 30]);
        table::push_row(&mut v, [31, 32, 31, 32, 31, 30, 30, 30, 29, 30, 29, 31]);
        table::push_row(&mut v, [31, 31, 32, 31, 31, 31, 30, 29, 29, 30, 30, 30]);
        table::push_row(&mut v, [31, 31, 32, 31, 31, 31, 30, 29, 30, 29, 30, 30]);
        table::push_row(&mut v, [31, 32, 31, 32, 31, 30, 30, 30, 29, 29, 30, 30]);
        table::push_row(&mut v, [31, 32, 31, 32, 31, 30, 30, 30, 29, 30, 29, 31]);
        table::push_row(&mut v, [31, 31, 32, 31, 31, 31, 30, 29, 29, 30, 30, 30]);
        table::push_row(&mut v, [31, 31, 32, 31, 32, 30, 30, 29, 30, 29, 30, 30]);
        table::push_row(&mut v, [31, 32, 31, 32, 31, 30, 30, 30, 29, 29, 30, 30]);
        table::push_row(&mut v, [31, 32, 32, 31, 31, 30, 30, 30, 29, 30, 29, 31]);
        table::push_row(&mut v, [31, 31, 32, 31, 31, 31, 30, 29, 29, 30, 30, 30]);
        table::push_row(&mut v, [31, 31, 32, 32, 31, 30, 30, 29, 30, 29, 30, 30]);
        table::push_row(&mut v, [31, 32, 31, 32, 31, 30, 30, 30, 29, 29, 30, 31]);
        table::push_row(&mut v, [30, 32, 32, 31, 31, 31, 29, 30, 29, 30, 29, 31]);
        table::push_row(&mut v, [31, 31, 32, 31, 31, 31, 30, 29, 29, 30, 30, 30]);
        table::push_row(&mut v, [31, 31, 32, 32, 31, 30, 30, 29, 30, 29, 30, 30]);
        table::push_row(&mut v, [31, 32, 31, 32, 31, 30, 30, 30, 29, 29, 30, 31]);
        table::push_row(&mut v, [31, 31, 32, 31, 31, 31, 29, 30, 29, 30, 29, 31]);
        table::push_row(&mut v, [31, 31, 32, 31, 31, 31, 30, 29, 29, 30, 30, 30]);
        table::push_row(&mut v, [31, 31, 32, 32, 31, 30, 30, 29, 30, 29, 30, 30]);
        table::push_row(&mut v, [31, 32, 31, 32, 31, 30, 30, 30, 29, 29, 30, 31]);
        table::push_row(&mut v, [31, 31, 32, 31, 31, 31, 29, 30, 29, 30, 30, 30]);
        table::push_row(&mut v, [31, 31, 32, 31, 31, 31, 30, 29, 30, 29, 30, 30]);
        table::push_row(&mut v, [31, 31, 32, 32, 31, 30, 30, 29, 30, 29, 30, 30]);
        table::push_row(&mut v, [31, 32, 31, 32, 31, 30, 30, 30, 29, 29, 30, 31]);
        table::push_row(&mut v, [31, 31, 32, 31, 31, 31, 29, 30, 29, 30, 30, 30]);
        table::push_row(&mut v, [31, 31, 32, 31, 31, 31, 30, 29, 30, 29, 30, 30]);
        table::push_row(&mut v, [31, 32, 31, 32, 31, 30, 30, 29, 30, 29, 30, 30]);
        table::push_row(&mut v, [31, 32, 31, 32, 31, 30, 30, 30, 29, 30, 29, 31]);
        table::push_row(&mut v, [31, 31, 32, 31, 31, 31, 30, 29, 29, 30, 30, 30]);
        table::push_row(&mut v, [31, 31, 32, 31, 31, 31, 30, 29, 30, 29, 30, 30]);
        table::push_row(&mut v, [31, 32, 31, 32, 31, 30, 30, 30, 29, 29, 30, 30]);
        table::push_row(&mut v, [31, 32, 31, 32, 31, 30, 30, 30, 29, 30, 29, 31]);
        table::push_row(&mut v, [31, 31, 32, 31, 31, 31, 30, 29, 29, 30, 30, 30]);
        table::push_row(&mut v, [31, 31, 32, 31, 32, 30, 30, 29, 30, 29, 30, 30]);
        table::push_row(&mut v, [31, 32, 31, 32, 31, 30, 30, 30, 29, 29, 30, 30]);
        table::push_row(&mut v, [31, 32, 32, 31, 31, 30, 30, 30, 29, 30, 29, 31]);
        table::push_row(&mut v, [31, 31, 32, 31, 31, 31, 30, 29, 29, 30, 30, 30]);
        table::push_row(&mut v, [31, 31, 32, 32, 31, 30, 30, 29, 30, 29, 30, 30]);
        table::push_row(&mut v, [31, 32, 31, 32, 31, 30, 30, 30, 29, 29, 30, 31]);
        table::push_row(&mut v, [30, 32, 32, 31, 31, 30, 30, 30, 29, 30, 29, 31]);
        table::push_row(&mut v, [31, 31, 32, 31, 31, 31, 30, 29, 29, 30, 30, 30]);
        table::push_row(&mut v, [31, 31, 32, 32, 31, 30, 30, 29, 30, 29, 30, 30]);
        table::push_row(&mut v, [31, 32, 31, 32, 31, 30, 30, 30, 29, 29, 30, 31]);
        table::push_row(&mut v, [30, 32, 32, 31, 31, 31, 29, 30, 29, 30, 29, 31]);
        table::push_row(&mut v, [31, 31, 32, 31, 31, 31, 30, 29, 29, 30, 30, 30]);
        table::push_row(&mut v, [31, 31, 32, 32, 31, 30, 30, 29, 30, 29, 30, 30]);
        table::push_row(&mut v, [31, 32, 31, 32, 31, 30, 30, 30, 29, 29, 30, 31]);
        table::push_row(&mut v, [31, 31, 32, 31, 31, 31, 29, 30, 29, 30, 29, 31]);
        table::push_row(&mut v, [31, 31, 32, 31, 31, 31, 30, 29, 30, 29, 30, 30]);
        table::push_row(&mut v, [31, 31, 32, 32, 31, 30, 30, 29, 30, 29, 30, 30]);
        table::push_row(&mut v, [31, 32, 31, 32, 31, 30, 30, 30, 29, 29, 30, 31]);
        table::push_row(&mut v, [31, 31, 32, 31, 31, 31, 29, 30, 29, 30, 30, 30]);
        table::push_row(&mut v, [31, 31, 32, 31, 31, 31, 30, 29, 30, 29, 30, 30]);
        table::push_row(&mut v, [31, 32, 31, 32, 31, 30, 30, 29, 30, 29, 30, 30]);
        table::push_row(&mut v, [31, 32, 31, 32, 31, 30, 30, 30, 29, 30, 29, 31]);
        table::push_row(&mut v, [31, 31, 32, 31, 31, 31, 30, 29, 29, 30, 30, 30]);
        table::push_row(&mut v, [31, 31, 32, 31, 31, 31, 30, 29, 30, 29, 30, 30]);
        table::push_row(&mut v, [31, 32, 31, 32, 31, 30, 30, 30, 29, 29, 30, 30]);
        table::push_row(&mut v, [31, 32, 31, 32, 31, 30, 30, 30, 29, 30, 29, 31]);
        table::push_row(&mut v, [31, 31, 32, 31, 31, 31, 30, 29, 29, 30, 30, 30]);
        table::push_row(&mut v, [31, 31, 32, 31, 31, 31, 30, 29, 30, 29, 30, 30]);
        table::push_row(&mut v, [31, 32, 31, 32, 31, 30, 30, 30, 29, 29, 30, 30]);
        table::push_row(&mut v, [31, 32, 31, 32, 31, 30, 30, 30, 29, 30, 29, 31]);
        table::push_row(&mut v, [31, 31, 32, 31, 31, 31, 30, 29, 29, 30, 30, 30]);
        table::push_row(&mut v, [31, 31, 32, 31, 32, 30, 30, 29, 30, 29, 30, 30]);
        table::push_row(&mut v, [31, 32, 31, 32, 31, 30, 30, 30, 29, 29, 30, 31]);
        table::push_row(&mut v, [30, 32, 32, 31, 31, 30, 30, 30, 29, 30, 29, 31]);        proof {
            assert(v@.len() == 13 * TABLE_YEAR_COUNT);
            assert(v@.len() as int / 13 == TABLE_YEAR_COUNT as int) by {
                vstd::arithmetic::div_mod::lemma_fundamental_div_mod_converse_div(
                    13 * TABLE_YEAR_COUNT as int, 13, TABLE_YEAR_COUNT as int, 0);
            }
        }
        Bikram { year: 0, month: -1, day: 0, rows: v }
    }

    /// The year component of the last conversion result.
    pub fn get_year(&self) -> (r: i32)
        ensures
            r as int == self.bs_year(),
    {
        self.year
    }

    /// The month component of the last conversion result.
    pub fn get_month(&self) -> (r: i32)
        ensures
            r as int == self.bs_month(),
    {
        self.month
    }

    /// The day component of the last conversion result.
    pub fn get_day(&self) -> (r: i32)
        ensures
            r as int == self.bs_day(),
    {
        self.day
    }

    /// Converts Gregorian `(y, m, d)` to a Bikram Sambat date through the
    /// table, storing the result in the year/month/day fields.  Returns
    /// whether the date fell inside the tabulated span; when it did not
    /// (before the epoch, or past the last tabulated day), the stored date
    /// is unchanged and the caller must fall back to the astronomical
    /// engine.
    pub fn from_gregorian(&mut self, y: i32, m: i32, d: i32) -> (handled: bool)
        requires
            old(self).wf(),
            -4712 <= y <= 9999,
            1 <= m <= 12,
            1 <= d <= 31,
        ensures
            final(self).wf(),
            final(self).table() == old(self).table(),
            ({
                let t = old(self).table();
                let diff = jdn::greg_to_jdn(y as int, m as int, d as int)
                    - crate::BS_EPOCH_JDN as int;
                &&& (handled <==> 0 <= diff < year_sum(t, TABLE_YEAR_COUNT as int))
                &&& handled ==> bs_valid(t, final(self).bs_year(), final(self).bs_month(),
                        final(self).bs_day())
                    && bs_offset(t, final(self).bs_year(), final(self).bs_month(),
                        final(self).bs_day()) == diff
                &&& !handled ==> final(self).bs_year() == old(self).bs_year()
                    && final(self).bs_month() == old(self).bs_month()
                    && final(self).bs_day() == old(self).bs_day()
            }),
    {
        let j = jdn::gregorian_to_jdn(y, m, d);
        let diff0: i64 = j - crate::BS_EPOCH_JDN;
        if diff0 < 0 {
            return false;
        }
        let ghost t = self.rows@;
        let mut rem: i64 = diff0;
        let mut yi: usize = 0;
        while yi < TABLE_YEAR_COUNT
            invariant
                *self == *old(self),
                old(self).wf(),
                t == self.rows@,
                -4712 <= y <= 9999 && 1 <= m <= 12 && 1 <= d <= 31,
                0 <= yi <= TABLE_YEAR_COUNT,
                rem == diff0 - year_sum(t, yi as int),
                rem >= 0,
                diff0 == jdn::greg_to_jdn(y as int, m as int, d as int)
                    - crate::BS_EPOCH_JDN as int,
                0 <= diff0 < 6_000_000,
            decreases TABLE_YEAR_COUNT - yi,
        {
            let total = self.rows[13 * yi + 12];
            proof {
                lemma_month_sum_bounds(t, TABLE_YEAR_COUNT as int, yi as int, 0, 12);
            }
            if rem < total as i64 {
                let mut mi: usize = 0;
                let mut r2: i64 = rem;
                while mi < 12
                    invariant
                        *self == *old(self),
                        old(self).wf(),
                        t == self.rows@,
                        0 <= yi < TABLE_YEAR_COUNT,
                        0 <= mi <= 12,
                        r2 == rem - month_sum(t, yi as int, mi as int),
                        r2 >= 0,
                        0 <= rem < month_sum(t, yi as int, 12),
                        rem == diff0 - year_sum(t, yi as int),
                        total == t[13 * yi + 12],
                        diff0 == jdn::greg_to_jdn(y as int, m as int, d as int)
                            - crate::BS_EPOCH_JDN as int,
                        0 <= diff0 < 6_000_000,
                    decreases 12 - mi,
                {
                    let len = self.rows[13 * yi + mi];
                    if r2 < len as i64 {
                        self.year = crate::BS_START_YEAR + yi as i32;
                        self.month = mi as i32 + 1;
                        self.day = r2 as i32 + 1;
                        proof {
                            lemma_year_sum_bounds(t, TABLE_YEAR_COUNT as int,
                                yi as int + 1, TABLE_YEAR_COUNT as int);
                        }
                        return true;
                    }
                    r2 = r2 - len as i64;
                    mi = mi + 1;
                }
                proof {
                    assert(false);
                }
            }
            rem = rem - total as i64;
            yi = yi + 1;
        }
        false
    }

    /// Converts a Bikram Sambat date of a tabulated year to the Gregorian
    /// date exactly `bs_offset` days after the table epoch; returns `None`
    /// for years outside the table, which the caller converts through the
    /// astronomical engine.
    pub fn to_gregorian(&self, bs_year: i32, bs_month: i32, bs_day: i32)
        -> (r: Option<(i32, i32, i32)>)
        requires
            self.wf(),
            1 <= bs_month <= 12,
            1 <= bs_day <= 32,
        ensures
            r is Some <==> 2000 <= bs_year < 2000 + TABLE_YEAR_COUNT as int,
            r is Some ==> ({
                let g = r->Some_0;
                let z = crate::BS_EPOCH_JDN as int
                    + bs_offset(self.table(), bs_year as int, bs_month as int, bs_day as int);
                &&& (g.0 as int, g.1 as int, g.2 as int) == jdn::jdn_to_greg(z)
                &&& jdn::valid_greg(g.0 as int, g.1 as int, g.2 as int)
                &&& jdn::greg_to_jdn(g.0 as int, g.1 as int, g.2 as int) == z
                &&& 1582 <= g.0 <= 9999
            }),
    {
        if !(bs_year >= crate::BS_START_YEAR
            && bs_year - crate::BS_START_YEAR < TABLE_YEAR_COUNT as i32) {
            return None;
        }
        let ghost t = self.rows@;
        let yi = (bs_year - crate::BS_START_YEAR) as usize;
        let mut days: i64 = 0;
        let mut i: usize = 0;
        while i < yi
            invariant
                self.wf(),
                t == self.rows@,
                0 <= i <= yi < TABLE_YEAR_COUNT,
                days == year_sum(t, i as int),
                0 <= days <= 384 * i,
            decreases yi - i,
        {
            proof {
                lemma_month_sum_bounds(t, TABLE_YEAR_COUNT as int, i as int, 0, 12);
            }
            days = days + self.rows[13 * i + 12] as i64;
            i = i + 1;
        }
        let mut mi: usize = 0;
        while mi < (bs_month - 1) as usize
            invariant
                self.wf(),
                t == self.rows@,
                0 <= yi < TABLE_YEAR_COUNT,
                0 <= mi <= 11,
                1 <= bs_month <= 12,
                mi <= bs_month - 1,
                days == year_sum(t, yi as int) + month_sum(t, yi as int, mi as int),
                0 <= days <= 384 * yi + 32 * mi,
            decreases bs_month - 1 - mi,
        {
            days = days + self.rows[13 * yi + mi] as i64;
            mi = mi + 1;
        }
        let days2: i64 = days + bs_day as i64 - 1;
        let z: i64 = crate::BS_EPOCH_JDN + days2;
        proof {
            crate::jdn_laws::lemma_jdn_inverse(z as int);
        }
        let g = jdn::jdn_to_gregorian(z);
        Some(g)
    }

    /// Length in days of Bikram Sambat month `bs_month` of tabulated year
    /// `bs_year`, read from the table; `None` outside the tabulated years,
    /// where the caller derives the length from two astronomical
    /// conversions.
    pub fn days_in_month(&self, bs_year: i32, bs_month: i32) -> (r: Option<i32>)
        requires
            self.wf(),
            1 <= bs_month <= 12,
        ensures
            r is Some <==> 2000 <= bs_year < 2000 + TABLE_YEAR_COUNT as int,
            r is Some ==> r->Some_0 as int
                == self.table()[13 * (bs_year - 2000) + (bs_month - 1)],
            r is Some ==> 1 <= r->Some_0 <= 32,
    {
        if bs_year >= crate::BS_START_YEAR
            && bs_year - crate::BS_START_YEAR < TABLE_YEAR_COUNT as i32 {
            let yi = (bs_year - crate::BS_START_YEAR) as usize;
            let mi = (bs_month - 1) as usize;
            Some(self.rows[13 * yi + mi] as i32)
        } else {
            None
        }
    }
}

} // verus!
