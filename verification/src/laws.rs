use vstd::prelude::*;
use vstd::arithmetic::div_mod::lemma_fundamental_div_mod_converse_div;
use crate::jdn::{greg_to_jdn, jdn_to_greg, valid_greg};
use crate::jdn_laws::{greg_succ, lemma_jdn_inverse, lemma_jdn_round_trip, lemma_succ_jdn};
use crate::table::{
    bs_offset, bs_valid, lemma_offset_in_year, lemma_offset_injective, month_sum,
    wf_table, year_sum, TABLE_YEAR_COUNT,
};

verus! {

// Laws of the table converter, stated over the spec-level characterizations
// that the contracts of `Bikram::from_gregorian` and `Bikram::to_gregorian`
// use: `from_gregorian` produces the valid tabulated date whose `bs_offset`
// equals the day difference to the epoch, and `to_gregorian` produces the
// Gregorian date of the Julian Day Number `BS_EPOCH_JDN + bs_offset`.

/// Round trip starting from a Gregorian day that falls in the tabulated
/// span: converting it to the Bikram Sambat date with the matching offset
/// and back through the epoch Julian Day Number returns the same Gregorian
/// day.
pub proof fn lemma_table_round_trip_gregorian(
    t: Seq<u16>, y: int, m: int, d: int, by: int, bm: int, bd: int,
)
    requires
        wf_table(t),
        valid_greg(y, m, d),
        1582 <= y <= 9999,
        greg_to_jdn(y, m, d) >= crate::BS_EPOCH_JDN as int,
        bs_valid(t, by, bm, bd),
        bs_offset(t, by, bm, bd) == greg_to_jdn(y, m, d) - crate::BS_EPOCH_JDN as int,
    ensures
        jdn_to_greg(crate::BS_EPOCH_JDN as int + bs_offset(t, by, bm, bd)) == (y, m, d),
{
    lemma_jdn_round_trip(y, m, d);
}

/// Round trip starting from a tabulated Bikram Sambat date: its Gregorian
/// day is valid, falls back into the tabulated span, and the only valid
/// tabulated date whose offset matches that day is the one started from.
pub proof fn lemma_table_round_trip_bikram(t: Seq<u16>, by: int, bm: int, bd: int)
    requires
        wf_table(t),
        bs_valid(t, by, bm, bd),
    ensures
        ({
            let g = jdn_to_greg(crate::BS_EPOCH_JDN as int + bs_offset(t, by, bm, bd));
            &&& valid_greg(g.0, g.1, g.2)
            &&& 1582 <= g.0 <= 9999
            &&& 0 <= greg_to_jdn(g.0, g.1, g.2) - crate::BS_EPOCH_JDN as int
            &&& greg_to_jdn(g.0, g.1, g.2) - (crate::BS_EPOCH_JDN as int)
                < year_sum(t, TABLE_YEAR_COUNT as int)
            &&& forall|y2: int, m2: int, d2: int|
                bs_valid(t, y2, m2, d2) && bs_offset(t, y2, m2, d2)
                    == greg_to_jdn(g.0, g.1, g.2) - crate::BS_EPOCH_JDN as int
                    ==> y2 == by && m2 == bm && d2 == bd
        }),
{
    let n = TABLE_YEAR_COUNT as int;
    lemma_offset_in_year(t, n, by, bm, bd);
    crate::table::lemma_year_sum_bounds(t, n, 0, n);
    let z = crate::BS_EPOCH_JDN as int + bs_offset(t, by, bm, bd);
    lemma_jdn_inverse(z);
    let g = jdn_to_greg(z);
    assert forall|y2: int, m2: int, d2: int|
        bs_valid(t, y2, m2, d2) && bs_offset(t, y2, m2, d2)
            == greg_to_jdn(g.0, g.1, g.2) - crate::BS_EPOCH_JDN as int
        implies y2 == by && m2 == bm && d2 == bd by {
        lemma_offset_injective(t, y2, m2, d2, by, bm, bd);
    };
}

/// Month-length consistency: in a well-formed table every year's stored
/// total equals the sum of its 12 month lengths.
pub proof fn lemma_month_length_consistency(t: Seq<u16>, yi: int)
    requires
        wf_table(t),
        0 <= yi < TABLE_YEAR_COUNT as int,
    ensures
        t[13 * yi + 12] == month_sum(t, yi, 12),
{
}

/// Boundary continuity inside the table: the first day of a Bikram Sambat
/// year converts to the Gregorian day immediately after the one its
/// predecessor's last tabulated day converts to.
pub proof fn lemma_boundary_continuity(t: Seq<u16>, y: int)
    requires
        wf_table(t),
        2000 <= y,
        y + 1 < 2000 + TABLE_YEAR_COUNT as int,
    ensures
        ({
            let last = t[13 * (y - 2000) + 11] as int;
            let off1 = bs_offset(t, y, 12, last);
            let off2 = bs_offset(t, y + 1, 1, 1);
            &&& off2 == off1 + 1
            &&& jdn_to_greg(crate::BS_EPOCH_JDN as int + off2)
                == greg_succ(jdn_to_greg(crate::BS_EPOCH_JDN as int + off1).0,
                    jdn_to_greg(crate::BS_EPOCH_JDN as int + off1).1,
                    jdn_to_greg(crate::BS_EPOCH_JDN as int + off1).2)
        }),
{
    let n = TABLE_YEAR_COUNT as int;
    let yi = y - 2000;
    let last = t[13 * yi + 11] as int;
    assert(month_sum(t, yi, 12) == month_sum(t, yi, 11) + t[13 * yi + 11]);
    assert(year_sum(t, yi + 1) == year_sum(t, yi) + t[13 * yi + 12]);
    let off1 = bs_offset(t, y, 12, last);
    let off2 = bs_offset(t, y + 1, 1, 1);
    assert(off2 == off1 + 1);
    lemma_offset_in_year(t, n, y, 12, last);
    crate::table::lemma_year_sum_bounds(t, n, 0, yi);
    crate::table::lemma_year_sum_bounds(t, n, yi + 1, n);
    crate::table::lemma_year_sum_bounds(t, n, 0, n);
    let z1 = crate::BS_EPOCH_JDN as int + off1;
    lemma_jdn_inverse(z1);
    let g1 = jdn_to_greg(z1);
    if g1.0 == 9999 && g1.1 == 12 && g1.2 == 31 {
        assert(false);
    }
    lemma_succ_jdn(g1.0, g1.1, g1.2);
    let g2 = greg_succ(g1.0, g1.1, g1.2);
    lemma_jdn_round_trip(g2.0, g2.1, g2.2);
}

/// The epoch anchor: `BS_EPOCH_JDN` is the Julian Day Number of
/// 14 April 1943, that day's offset into any well-formed table is zero, and
/// Bikram Sambat 2000-01-01 is the only tabulated date with offset zero —
/// so the table converter maps the two days to each other exactly.
pub proof fn lemma_epoch_anchor(t: Seq<u16>)
    requires
        wf_table(t),
    ensures
        greg_to_jdn(1943, 4, 14) == crate::BS_EPOCH_JDN as int,
        bs_valid(t, 2000, 1, 1),
        bs_offset(t, 2000, 1, 1) == 0,
        0 < year_sum(t, TABLE_YEAR_COUNT as int),
        forall|y: int, m: int, d: int|
            bs_valid(t, y, m, d) && bs_offset(t, y, m, d) == 0
                ==> y == 2000 && m == 1 && d == 1,
{
    lemma_fundamental_div_mod_converse_div(1943, 100, 19, 43);
    lemma_fundamental_div_mod_converse_div(19, 4, 4, 3);
    lemma_fundamental_div_mod_converse_div(1461int * 6659, 4, 2432199, 3);
    let tm = crate::jdn_laws::lemma_month_term(4);
    assert(greg_to_jdn(1943, 4, 14) == 2430829);
    crate::table::lemma_year_sum_bounds(t, TABLE_YEAR_COUNT as int, 0,
        TABLE_YEAR_COUNT as int);
    assert forall|y: int, m: int, d: int|
        bs_valid(t, y, m, d) && bs_offset(t, y, m, d) == 0
        implies y == 2000 && m == 1 && d == 1 by {
        lemma_offset_injective(t, y, m, d, 2000, 1, 1);
    };
}

} // verus!
