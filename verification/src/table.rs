use vstd::prelude::*;

verus! {

/// How many Bikram Sambat years the month-length table covers, starting at
/// `BS_START_YEAR`.
pub const TABLE_YEAR_COUNT: usize = 90;

/// The table is stored flat: 13 entries per tabulated year, the 12 month
/// lengths followed by the total days of that year.  `month_sum(t, yi, k)`
/// is the number of days in the first `k` months of table year `yi`.
pub open spec fn month_sum(t: Seq<u16>, yi: int, k: int) -> int
    decreases k,
{
    if k <= 0 {
        0
    } else {
        month_sum(t, yi, k - 1) + t[13 * yi + (k - 1)]
    }
}

/// Total days of the table years strictly before year index `n`, taken from
/// each year's stored total entry.
pub open spec fn year_sum(t: Seq<u16>, n: int) -> int
    decreases n,
{
    if n <= 0 {
        0
    } else {
        year_sum(t, n - 1) + t[13 * (n - 1) + 12]
    }
}

/// Well-formedness of the first `n` rows of the flat table: every month
/// length is between 1 and 32 days, and each row's stored total equals the
/// sum of its 12 month lengths.
pub open spec fn wf_prefix(t: Seq<u16>, n: int) -> bool {
    &&& t.len() == 13 * n
    &&& forall|yi: int, k: int|
        0 <= yi < n && 0 <= k < 12 ==> 1 <= #[trigger] t[13 * yi + k] <= 32
    &&& forall|yi: int| 0 <= yi < n ==> t[13 * yi + 12] == month_sum(t, yi, 12)
}

/// Well-formedness of the complete table.
pub open spec fn wf_table(t: Seq<u16>) -> bool {
    wf_prefix(t, TABLE_YEAR_COUNT as int)
}

/// Whether `(y, m, d)` names a day of a tabulated Bikram Sambat year.
pub open spec fn bs_valid(t: Seq<u16>, y: int, m: int, d: int) -> bool {
    &&& 2000 <= y < 2000 + TABLE_YEAR_COUNT as int
    &&& 1 <= m <= 12
    &&& 1 <= d <= t[13 * (y - 2000) + (m - 1)]
}

/// Day offset of Bikram Sambat `(y, m, d)` from the first tabulated day:
/// full years before `y`, then full months before `m`, then `d - 1` days.
pub open spec fn bs_offset(t: Seq<u16>, y: int, m: int, d: int) -> int {
    year_sum(t, y - 2000) + month_sum(t, y - 2000, m - 1) + d - 1
}

/// `month_sum` reads only the 12 month entries of its own row, so it is
/// unchanged when the table is extended or other rows change.
pub proof fn lemma_month_sum_agree(t1: Seq<u16>, t2: Seq<u16>, yi: int, k: int)
    requires
        0 <= k <= 12,
        13 * yi + 12 <= t1.len(),
        13 * yi + 12 <= t2.len(),
        forall|i: int| 13 * yi <= i < 13 * yi + 12 ==> t1[i] == t2[i],
    ensures
        month_sum(t1, yi, k) == month_sum(t2, yi, k),
    decreases k,
{
    if k > 0 {
        lemma_month_sum_agree(t1, t2, yi, k - 1);
    }
}

/// Month prefix sums grow by at least one day per month and by at most 32.
pub proof fn lemma_month_sum_bounds(t: Seq<u16>, n: int, yi: int, j: int, k: int)
    requires
        wf_prefix(t, n),
        0 <= yi < n,
        0 <= j <= k <= 12,
    ensures
        month_sum(t, yi, j) + (k - j) <= month_sum(t, yi, k),
        month_sum(t, yi, k) <= month_sum(t, yi, j) + 32 * (k - j),
    decreases k,
{
    if j < k {
        lemma_month_sum_bounds(t, n, yi, j, k - 1);
    }
}

/// Year prefix sums grow by each year's total; every yearly total is
/// between 12 and 384 days.
pub proof fn lemma_year_sum_bounds(t: Seq<u16>, n: int, i: int, j: int)
    requires
        wf_prefix(t, n),
        0 <= i <= j <= n,
    ensures
        year_sum(t, i) + 12 * (j - i) <= year_sum(t, j),
        year_sum(t, j) <= year_sum(t, i) + 384 * (j - i),
    decreases j,
{
    if i < j {
        lemma_year_sum_bounds(t, n, i, j - 1);
        lemma_month_sum_bounds(t, n, j - 1, 0, 12);
    }
}

/// A valid tabulated date's offset falls inside its own year's day span.
pub proof fn lemma_offset_in_year(t: Seq<u16>, n: int, y: int, m: int, d: int)
    requires
        wf_prefix(t, n),
        n == TABLE_YEAR_COUNT as int,
        bs_valid(t, y, m, d),
    ensures
        year_sum(t, y - 2000) <= bs_offset(t, y, m, d),
        bs_offset(t, y, m, d) < year_sum(t, y - 2000 + 1),
        0 <= bs_offset(t, y, m, d) < year_sum(t, n),
{
    let yi = y - 2000;
    lemma_month_sum_bounds(t, n, yi, 0, m - 1);
    lemma_month_sum_bounds(t, n, yi, m - 1, m);
    lemma_month_sum_bounds(t, n, yi, m, 12);
    lemma_year_sum_bounds(t, n, 0, yi);
    lemma_year_sum_bounds(t, n, yi + 1, n);
}

/// Two valid tabulated dates with the same day offset are the same date:
/// the offset decomposition year / month / day is unique.
pub proof fn lemma_offset_injective(
    t: Seq<u16>, y1: int, m1: int, d1: int, y2: int, m2: int, d2: int,
)
    requires
        wf_table(t),
        bs_valid(t, y1, m1, d1),
        bs_valid(t, y2, m2, d2),
        bs_offset(t, y1, m1, d1) == bs_offset(t, y2, m2, d2),
    ensures
        y1 == y2 && m1 == m2 && d1 == d2,
{
    let n = TABLE_YEAR_COUNT as int;
    lemma_offset_in_year(t, n, y1, m1, d1);
    lemma_offset_in_year(t, n, y2, m2, d2);
    if y1 < y2 {
        lemma_year_sum_bounds(t, n, y1 - 2000 + 1, y2 - 2000);
        assert(false);
    }
    if y2 < y1 {
        lemma_year_sum_bounds(t, n, y2 - 2000 + 1, y1 - 2000);
        assert(false);
    }
    let yi = y1 - 2000;
    // same year: compare month prefix sums
    lemma_month_sum_bounds(t, n, yi, m1 - 1, m1);
    lemma_month_sum_bounds(t, n, yi, m2 - 1, m2);
    if m1 < m2 {
        lemma_month_sum_bounds(t, n, yi, m1, m2 - 1);
        assert(false);
    }
    if m2 < m1 {
        lemma_month_sum_bounds(t, n, yi, m2, m1 - 1);
        assert(false);
    }
}

/// Appends one table row: 12 month lengths and their total.  Establishes
/// well-formedness of the extended prefix.
pub fn push_row(v: &mut Vec<u16>, row: [u16; 12])
    requires
        wf_prefix(old(v)@, old(v)@.len() as int / 13),
        forall|i: int| 0 <= i < 12 ==> 1 <= #[trigger] row@[i] <= 32,
    ensures
        final(v)@.len() == old(v)@.len() + 13,
        wf_prefix(final(v)@, final(v)@.len() as int / 13),
{
    let ghost n = old(v)@.len() as int / 13;
    let ghost t0 = old(v)@;
    let mut total: u16 = 0;
    let mut i: usize = 0;
    while i < 12
        invariant
            0 <= i <= 12,
            total as int == sum_prefix(row@, i as int),
            total <= 32 * i,
            forall|j: int| 0 <= j < 12 ==> 1 <= #[trigger] row@[j] <= 32,
            v@ == t0,
        decreases 12 - i,
    {
        total = total + row[i];
        i = i + 1;
    }
    let mut k: usize = 0;
    while k < 12
        invariant
            0 <= k <= 12,
            v@ == t0 + row@.subrange(0, k as int),
            forall|j: int| 0 <= j < 12 ==> 1 <= #[trigger] row@[j] <= 32,
        decreases 12 - k,
    {
        let x = row[k];
        v.push(x);
        proof {
            assert(v@ =~= t0 + row@.subrange(0, k as int + 1));
        }
        k = k + 1;
    }
    proof {
        assert(row@.subrange(0, 12) =~= row@);
    }
    v.push(total);
    proof {
        let t = v@;
        assert(t =~= t0 + row@ + seq![total]);
        assert(t0.len() == 13 * n);
        assert(t.len() == 13 * (n + 1));
        assert(forall|i2: int| 0 <= i2 < 13 * n ==> t[i2] == t0[i2]);
        assert(forall|j: int| 0 <= j < 12 ==> t[13 * n + j] == row@[j]);
        assert(t[13 * n + 12] == total);
        assert forall|yi: int| 0 <= yi < n + 1 implies t[13 * yi + 12] == month_sum(
            t, yi, 12,
        ) by {
            if yi < n {
                lemma_month_sum_agree(t0, t, yi, 12);
            } else {
                lemma_month_sum_is_sum_prefix(t, n, row@, 12);
            }
        }
        assert(wf_prefix(t, n + 1));
        assert(t.len() as int / 13 == n + 1) by {
            vstd::arithmetic::div_mod::lemma_fundamental_div_mod_converse_div(
                13 * (n + 1), 13, n + 1, 0);
        }
    }
}

/// Sum of the first `k` entries of a 12-entry row.
pub open spec fn sum_prefix(r: Seq<u16>, k: int) -> int
    decreases k,
{
    if k <= 0 {
        0
    } else {
        sum_prefix(r, k - 1) + r[k - 1]
    }
}

/// When row `n` of the flat table holds exactly the entries of `r`, the
/// table's month prefix sums of that row equal the row's own prefix sums.
proof fn lemma_month_sum_is_sum_prefix(t: Seq<u16>, n: int, r: Seq<u16>, k: int)
    requires
        0 <= k <= 12,
        r.len() == 12,
        13 * n + 13 <= t.len(),
        forall|j: int| 0 <= j < 12 ==> t[13 * n + j] == r[j],
    ensures
        month_sum(t, n, k) == sum_prefix(r, k),
    decreases k,
{
    if k > 0 {
        lemma_month_sum_is_sum_prefix(t, n, r, k - 1);
    }
}

} // verus!
