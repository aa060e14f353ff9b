//! Calendar arithmetic for the date grid, and parsing of the `--days`
//! command-line value.
//!
//! Dates are modelled as plain `(year, month, day)` triples in the proleptic
//! Gregorian calendar.  The day-number spec functions below assign every valid
//! date its count of days since 1970-01-01, which is the yardstick all date
//! contracts are stated against.  Moving a date forward by a number of days is
//! delegated to the `chrono` crate through a trusted wrapper.

use chrono::Datelike;
use vstd::arithmetic::div_mod::lemma_mod_multiples_vanish;
use vstd::prelude::*;
use vstd::string::StrSliceExecFns;

use crate::domain::Date;

verus! {

/// Smallest year a `Date` may carry (the range supported by `chrono`).
pub const MIN_YEAR: i32 = -262143;

/// Largest year a `Date` may carry (the range supported by `chrono`).
pub const MAX_YEAR: i32 = 262142;

/// Whether `y` is a leap year in the proleptic Gregorian calendar.
pub open spec fn spec_is_leap_year(y: int) -> bool {
    (y % 4 == 0 && y % 100 != 0) || y % 400 == 0
}

/// Number of days in month `m` of year `y` (months are 1-based).
pub open spec fn spec_days_in_month(y: int, m: int) -> int {
    if m == 2 {
        if spec_is_leap_year(y) {
            29
        } else {
            28
        }
    } else if m == 4 || m == 6 || m == 9 || m == 11 {
        30
    } else {
        31
    }
}

/// Whether `(y, m, d)` is a calendar-valid date within the supported year
/// range.
pub open spec fn spec_valid_date(y: int, m: int, d: int) -> bool {
    &&& MIN_YEAR <= y <= MAX_YEAR
    &&& 1 <= m <= 12
    &&& 1 <= d <= spec_days_in_month(y, m)
}

/// Days elapsed since 1970-01-01 (negative for earlier dates), following the
/// standard civil-calendar day-count computation.
pub open spec fn spec_day_number(y: int, m: int, d: int) -> int {
    let yy = if m <= 2 {
        y - 1
    } else {
        y
    };
    let era = yy / 400;
    let yoe = yy - era * 400;
    let mp = if m > 2 {
        m - 3
    } else {
        m + 9
    };
    let doy = (153 * mp + 2) / 5 + d - 1;
    let doe = yoe * 365 + yoe / 4 - yoe / 100 + doy;
    era * 146097 + doe - 719468
}

/// The `(year, month, day)` triple whose day number is `dn`: the inverse of
/// `spec_day_number` on valid dates.
pub open spec fn spec_date_of_day_number(dn: int) -> (int, int, int) {
    let z = dn + 719468;
    let era = z / 146097;
    let doe = z - era * 146097;
    let yoe = (doe - doe / 1460 + doe / 36524 - doe / 146096) / 365;
    let yy = yoe + era * 400;
    let doy = doe - (365 * yoe + yoe / 4 - yoe / 100);
    let mp = (5 * doy + 2) / 153;
    let d = doy - (153 * mp + 2) / 5 + 1;
    let m = if mp < 10 {
        mp + 3
    } else {
        mp - 9
    };
    (if m <= 2 {
        yy + 1
    } else {
        yy
    }, m, d)
}

/// Day number of the last supported date, `MAX_YEAR-12-31`.
pub open spec fn spec_max_day_number() -> int {
    spec_day_number(MAX_YEAR as int, 12, 31)
}

/// Whether `y` is a leap year in the proleptic Gregorian calendar.
pub fn is_leap_year(y: i32) -> (r: bool)
    requires
        MIN_YEAR <= y <= MAX_YEAR,
    ensures
        r == spec_is_leap_year(y as int),
{
    // Shift by a multiple of 400 so the remainders are taken of a
    // nonnegative value, where Rust's `%` agrees with the Euclidean `%`
    // of the specification.
    let t: i32 = y + 1048800;
    proof {
        lemma_mod_multiples_vanish(262200, y as int, 4);
        lemma_mod_multiples_vanish(10488, y as int, 100);
        lemma_mod_multiples_vanish(2622, y as int, 400);
    }
    (t % 4 == 0 && t % 100 != 0) || t % 400 == 0
}

/// Number of days in month `m` of year `y`.
pub fn days_in_month(y: i32, m: u32) -> (r: u32)
    requires
        MIN_YEAR <= y <= MAX_YEAR,
        1 <= m <= 12,
    ensures
        r == spec_days_in_month(y as int, m as int),
{
    if m == 2 {
        if is_leap_year(y) {
            29
        } else {
            28
        }
    } else if m == 4 || m == 6 || m == 9 || m == 11 {
        30
    } else {
        31
    }
}

/// Whether `(y, m, d)` names a calendar-valid date in the supported range.
pub fn is_valid_date(y: i32, m: u32, d: u32) -> (r: bool)
    ensures
        r == spec_valid_date(y as int, m as int, d as int),
{
    MIN_YEAR <= y && y <= MAX_YEAR && 1 <= m && m <= 12 && 1 <= d && d <= days_in_month(y, m)
}

/// Whether `d` is a calendar-valid date.
pub open spec fn spec_date_valid(d: Date) -> bool {
    spec_valid_date(d.year as int, d.month as int, d.day as int)
}

/// The day number of `d`: days since 1970-01-01.
pub open spec fn spec_day_number_of(d: Date) -> int {
    spec_day_number(d.year as int, d.month as int, d.day as int)
}

/// The day of the week of `d`, as days since Monday (0 = Monday, 6 = Sunday).
pub open spec fn spec_weekday(d: Date) -> int {
    (spec_day_number_of(d) + 3) % 7
}

/// Whether `d` falls on a Saturday or a Sunday.
pub open spec fn spec_is_weekend(d: Date) -> bool {
    spec_weekday(d) == 5 || spec_weekday(d) == 6
}

/// Whether moving `out` forward by `k` days stays within the supported
/// calendar range.
pub open spec fn spec_duration_fits(out: Date, k: u64) -> bool {
    spec_day_number_of(out) + k <= spec_max_day_number()
}

/// The date `k` days after `out`.
pub open spec fn spec_return_date(out: Date, k: u64) -> Date {
    let t = spec_date_of_day_number(spec_day_number_of(out) + k);
    Date { year: t.0 as i32, month: t.1 as u32, day: t.2 as u32 }
}

/// Relies on `chrono`'s `NaiveDate` (a proleptic Gregorian calendar date):
/// `from_ymd_opt` to build the date, `checked_add_days` to move it forward
/// `n` days, and the `Datelike` accessors to read the result back.
/// `checked_add_days` returns `None` exactly when the result would fall
/// outside the supported range.
#[verifier::external_body]
fn checked_add_days(y: i32, m: u32, d: u32, n: u64) -> (r: Option<(i32, u32, u32)>)
    requires
        spec_valid_date(y as int, m as int, d as int),
    ensures
        (r is Some) <==> spec_day_number(y as int, m as int, d as int) + n
            <= spec_max_day_number(),
        r matches Some(t) ==> {
            &&& spec_valid_date(t.0 as int, t.1 as int, t.2 as int)
            &&& (t.0 as int, t.1 as int, t.2 as int) == spec_date_of_day_number(
                spec_day_number(y as int, m as int, d as int) + n,
            )
            &&& spec_day_number(t.0 as int, t.1 as int, t.2 as int) == spec_day_number(
                y as int,
                m as int,
                d as int,
            ) + n
        },
{
    let date = chrono::NaiveDate::from_ymd_opt(y, m, d)?;
    let moved = date.checked_add_days(chrono::Days::new(n))?;
    Some((moved.year(), moved.month(), moved.day()))
}

/// Relies on `chrono`'s `NaiveDate::weekday` together with
/// `Weekday::num_days_from_monday`: the weekday of a date, counted with
/// Monday as 0, equals its day number plus 3 modulo 7 (1970-01-01 was a
/// Thursday).
#[verifier::external_body]
fn weekday_number(y: i32, m: u32, d: u32) -> (r: u32)
    requires
        spec_valid_date(y as int, m as int, d as int),
    ensures
        r as int == (spec_day_number(y as int, m as int, d as int) + 3) % 7,
{
    match chrono::NaiveDate::from_ymd_opt(y, m, d) {
        Some(date) => date.weekday().num_days_from_monday(),
        None => 0,
    }
}

/// Whether `date` falls on a weekend (Saturday or Sunday).
pub fn check_date_is_weekend(date: Date) -> (r: bool)
    requires
        spec_date_valid(date),
    ensures
        r == spec_is_weekend(date),
{
    let w = weekday_number(date.year, date.month, date.day);
    w == 5 || w == 6
}

/// Builds the calendar-valid date `(year, month, day)`.
pub fn parse_date(year: i32, month: u16, day: u16) -> (d: Date)
    requires
        spec_valid_date(year as int, month as int, day as int),
    ensures
        d == (Date { year, month: month as u32, day: day as u32 }),
        spec_date_valid(d),
{
    Date { year, month: month as u32, day: day as u32 }
}

/// The `(outbound, return)` pairs produced for one outbound date: one pair
/// per duration, in duration order, dropping durations whose return date
/// would leave the supported calendar range.
pub open spec fn spec_pairs_for_outbound(out: Date, durations: Seq<u64>) -> Seq<(Date, Date)>
    decreases durations.len(),
{
    if durations.len() == 0 {
        Seq::empty()
    } else {
        let rest = spec_pairs_for_outbound(out, durations.drop_first());
        if spec_duration_fits(out, durations[0]) {
            seq![(out, spec_return_date(out, durations[0]))] + rest
        } else {
            rest
        }
    }
}

/// The pairs produced for one `(month, day group)` entry: day-major, then
/// duration-major, dropping days that do not name a valid date.
pub open spec fn spec_pairs_for_group(
    year: i32,
    month: u16,
    days: Seq<u16>,
    durations: Seq<u64>,
) -> Seq<(Date, Date)>
    decreases days.len(),
{
    if days.len() == 0 {
        Seq::empty()
    } else {
        let out = Date { year, month: month as u32, day: days[0] as u32 };
        let head = if spec_date_valid(out) {
            spec_pairs_for_outbound(out, durations)
        } else {
            Seq::empty()
        };
        head + spec_pairs_for_group(year, month, days.drop_first(), durations)
    }
}

/// Whether the two dates of `pair` are exactly one of the grid's durations
/// apart: the law every expanded pair obeys.
pub open spec fn spec_pair_has_duration(pair: (Date, Date), durations: Seq<u64>) -> bool {
    exists|k: int|
        0 <= k < durations.len() && spec_day_number_of(pair.1) - spec_day_number_of(pair.0)
            == durations[k]
}

/// The full date grid: month-major, then day-major, then duration-major.
pub open spec fn spec_expand(
    year: i32,
    months: Seq<u16>,
    days: Seq<Seq<u16>>,
    durations: Seq<u64>,
) -> Seq<(Date, Date)>
    decreases months.len(),
{
    if months.len() == 0 || days.len() == 0 {
        Seq::empty()
    } else {
        spec_pairs_for_group(year, months[0], days[0], durations) + spec_expand(
            year,
            months.drop_first(),
            days.drop_first(),
            durations,
        )
    }
}

/// Expands the `(year, months, day groups, durations)` grid into the
/// sequence of `(outbound, return)` date pairs, month-major, then day-major,
/// then duration-major.  Days that do not name a valid calendar date are
/// dropped, as are durations whose return date would leave the supported
/// range.  Every produced pair is exactly one of the grid's durations apart.
#[verifier::loop_isolation(false)]
#[verifier::rlimit(50)]
pub fn create_dates(year: i32, months: Vec<u16>, days: &[Vec<u16>], durations: Vec<u64>) -> (r:
    Vec<(Date, Date)>)
    requires
        months@.len() == days@.len(),
    ensures
        r@ == spec_expand(year, months@, days@.map_values(|g: Vec<u16>| g@), durations@),
        forall|p: int|
                0 <= p < r@.len() ==> spec_pair_has_duration(#[trigger] r@[p], durations@),
{
    let ghost dayseqs = days@.map_values(|g: Vec<u16>| g@);
    let ghost full = spec_expand(year, months@, dayseqs, durations@);
    let mut r: Vec<(Date, Date)> = Vec::new();
    let mut i: usize = 0;
    proof {
        assert(months@.skip(0) =~= months@);
        assert(dayseqs.skip(0) =~= dayseqs);
        assert(r@ + full =~= full);
    }
    while i < months.len()
        invariant
            i <= months@.len(),
            full == r@ + spec_expand(
                year,
                months@.skip(i as int),
                dayseqs.skip(i as int),
                durations@,
            ),
            forall|p: int|
                0 <= p < r@.len() ==> spec_pair_has_duration(#[trigger] r@[p], durations@),
        decreases months@.len() - i,
    {
        let month = months[i];
        let group = &days[i];
        proof {
            assert(months@.skip(i as int).drop_first() =~= months@.skip(i as int + 1));
            assert(dayseqs.skip(i as int).drop_first() =~= dayseqs.skip(i as int + 1));
            assert(months@.skip(i as int)[0] == month);
            assert(dayseqs.skip(i as int)[0] == group@);
            let e_here = spec_expand(year, months@.skip(i as int), dayseqs.skip(i as int), durations@);
            let e_next = spec_expand(
                year,
                months@.skip(i as int + 1),
                dayseqs.skip(i as int + 1),
                durations@,
            );
            let g = spec_pairs_for_group(year, month, group@, durations@);
            assert(e_here == g + e_next);
            assert(group@.skip(0) =~= group@);
            assert(r@ + (g + e_next) =~= r@ + g + e_next);
        }
        let mut j: usize = 0;
        while j < group.len()
            invariant
                j <= group@.len(),
                full == r@ + spec_pairs_for_group(year, month, group@.skip(j as int), durations@)
                    + spec_expand(
                    year,
                    months@.skip(i as int + 1),
                    dayseqs.skip(i as int + 1),
                    durations@,
                ),
                forall|p: int|
                0 <= p < r@.len() ==> spec_pair_has_duration(#[trigger] r@[p], durations@),
            decreases group@.len() - j,
        {
            let day = group[j];
            let out = Date { year, month: month as u32, day: day as u32 };
            proof {
                assert(group@.skip(j as int).drop_first() =~= group@.skip(j as int + 1));
                assert(group@.skip(j as int)[0] == day);
            }
            let ghost e_next = spec_expand(
                year,
                months@.skip(i as int + 1),
                dayseqs.skip(i as int + 1),
                durations@,
            );
            let ghost g_here = spec_pairs_for_group(year, month, group@.skip(j as int), durations@);
            let ghost g_next = spec_pairs_for_group(
                year,
                month,
                group@.skip(j as int + 1),
                durations@,
            );
            if is_valid_date(out.year, out.month, out.day) {
                proof {
                    let pout = spec_pairs_for_outbound(out, durations@);
                    assert(g_here == pout + g_next);
                    assert(durations@.skip(0) =~= durations@);
                    assert(r@ + (pout + g_next) + e_next =~= r@ + pout + g_next + e_next);
                }
                let mut t: usize = 0;
                while t < durations.len()
                    invariant
                        t <= durations@.len(),
                        spec_date_valid(out),
                        full == r@ + spec_pairs_for_outbound(out, durations@.skip(t as int))
                            + spec_pairs_for_group(
                            year,
                            month,
                            group@.skip(j as int + 1),
                            durations@,
                        ) + spec_expand(
                            year,
                            months@.skip(i as int + 1),
                            dayseqs.skip(i as int + 1),
                            durations@,
                        ),
                        forall|p: int|
                0 <= p < r@.len() ==> spec_pair_has_duration(#[trigger] r@[p], durations@),
                    decreases durations@.len() - t,
                {
                    let k = durations[t];
                    let ghost p_here = spec_pairs_for_outbound(out, durations@.skip(t as int));
                    let ghost p_next = spec_pairs_for_outbound(out, durations@.skip(t as int + 1));
                    proof {
                        assert(durations@.skip(t as int).drop_first() =~= durations@.skip(
                            t as int + 1,
                        ));
                        assert(durations@.skip(t as int)[0] == k);
                    }
                    match checked_add_days(out.year, out.month, out.day, k) {
                        Some(back) => {
                            let ret = Date { year: back.0, month: back.1, day: back.2 };
                            let ghost r0 = r@;
                            proof {
                                assert(ret == spec_return_date(out, k));
                                assert(spec_day_number_of(ret) - spec_day_number_of(out)
                                    == durations@[t as int]);
                                assert(p_here == seq![(out, ret)] + p_next);
                            }
                            r.push((out, ret));
                            proof {
                                assert(r@ =~= r0 + seq![(out, ret)]);
                                assert(r0 + (seq![(out, ret)] + p_next) + g_next + e_next =~= r@
                                    + p_next + g_next + e_next);
                                assert forall|p: int| 0 <= p < r@.len() implies exists|k2: int|
                                    0 <= k2 < durations@.len() && spec_day_number_of(
                                        #[trigger] r@[p].1,
                                    ) - spec_day_number_of(r@[p].0) == durations@[k2] by {
                                    if p < r0.len() {
                                        assert(r@[p] == r0[p]);
                                    } else {
                                        assert(r@[p] == (out, ret));
                                        assert(0 <= t < durations@.len()
                                            && spec_day_number_of(ret) - spec_day_number_of(out)
                                            == durations@[t as int]);
                                    }
                                }
                            }
                        },
                        None => {
                            proof {
                                assert(p_here == p_next);
                            }
                        },
                    }
                    t = t + 1;
                }
                proof {
                    assert(durations@.skip(durations@.len() as int) =~= Seq::<u64>::empty());
                    assert(spec_pairs_for_outbound(out, Seq::<u64>::empty())
                        == Seq::<(Date, Date)>::empty());
                    assert(r@ + Seq::<(Date, Date)>::empty() + g_next + e_next =~= r@ + g_next
                        + e_next);
                }
            } else {
                proof {
                    assert(g_here == Seq::<(Date, Date)>::empty() + g_next);
                    assert(r@ + (Seq::<(Date, Date)>::empty() + g_next) + e_next =~= r@ + g_next
                        + e_next);
                }
            }
            j = j + 1;
        }
        proof {
            assert(group@.skip(group@.len() as int) =~= Seq::<u16>::empty());
            assert(spec_pairs_for_group(year, month, Seq::<u16>::empty(), durations@)
                == Seq::<(Date, Date)>::empty());
            assert(r@ + Seq::<(Date, Date)>::empty() + spec_expand(
                year,
                months@.skip(i as int + 1),
                dayseqs.skip(i as int + 1),
                durations@,
            ) =~= r@ + spec_expand(
                year,
                months@.skip(i as int + 1),
                dayseqs.skip(i as int + 1),
                durations@,
            ));
        }
        i = i + 1;
    }
    proof {
        assert(months@.skip(months@.len() as int) =~= Seq::<u16>::empty());
        assert(spec_expand(
            year,
            months@.skip(months@.len() as int),
            dayseqs.skip(months@.len() as int),
            durations@,
        ) =~= Seq::<(Date, Date)>::empty());
        assert(r@ + Seq::<(Date, Date)>::empty() =~= r@);
        assert(days@.map_values(|g: Vec<u16>| g@) =~= dayseqs);
    }
    r
}

/// The outbound date formed from one cell of the grid.
pub open spec fn spec_grid_date(year: i32, month: u16, day: u16) -> Date {
    Date { year, month: month as u32, day: day as u32 }
}

/// Total number of days listed across all day groups.
pub open spec fn spec_group_sizes_sum(days: Seq<Seq<u16>>) -> int
    decreases days.len(),
{
    if days.len() == 0 {
        0
    } else {
        days[0].len() + spec_group_sizes_sum(days.drop_first())
    }
}

/// Whether `out` is one of the outbound dates the grid declares: its year is
/// the grid's year and its month and day come from one `(month, day group)`
/// entry.
pub open spec fn spec_outbound_in_grid(
    out: Date,
    year: i32,
    months: Seq<u16>,
    days: Seq<Seq<u16>>,
) -> bool {
    exists|i: int, j: int|
        0 <= i < months.len() && 0 <= i < days.len() && 0 <= j < days[i].len() && out
            == spec_grid_date(year, months[i], #[trigger] days[i][j])
}

/// The number of durations whose return date from `out` stays in the
/// supported range.
pub open spec fn spec_fitting_count(out: Date, durations: Seq<u64>) -> int
    decreases durations.len(),
{
    if durations.len() == 0 {
        0
    } else {
        (if spec_duration_fits(out, durations[0]) {
            1int
        } else {
            0int
        }) + spec_fitting_count(out, durations.drop_first())
    }
}

/// The number of pairs one `(month, day group)` entry yields: per valid
/// day, the number of durations that stay in range.
pub open spec fn spec_group_pair_count(
    year: i32,
    month: u16,
    days: Seq<u16>,
    durations: Seq<u64>,
) -> int
    decreases days.len(),
{
    if days.len() == 0 {
        0
    } else {
        let out = Date { year, month: month as u32, day: days[0] as u32 };
        (if spec_date_valid(out) {
            spec_fitting_count(out, durations)
        } else {
            0int
        }) + spec_group_pair_count(year, month, days.drop_first(), durations)
    }
}

/// The number of pairs the whole grid yields, counting its drops.
pub open spec fn spec_grid_pair_count(
    year: i32,
    months: Seq<u16>,
    days: Seq<Seq<u16>>,
    durations: Seq<u64>,
) -> int
    decreases months.len(),
{
    if months.len() == 0 || days.len() == 0 {
        0
    } else {
        spec_group_pair_count(year, months[0], days[0], durations) + spec_grid_pair_count(
            year,
            months.drop_first(),
            days.drop_first(),
            durations,
        )
    }
}

proof fn lemma_pairs_for_outbound_len(out: Date, durations: Seq<u64>)
    ensures
        spec_pairs_for_outbound(out, durations).len() == spec_fitting_count(out, durations),
    decreases durations.len(),
{
    if durations.len() > 0 {
        lemma_pairs_for_outbound_len(out, durations.drop_first());
    }
}

proof fn lemma_pairs_for_group_len(year: i32, month: u16, days: Seq<u16>, durations: Seq<u64>)
    ensures
        spec_pairs_for_group(year, month, days, durations).len() == spec_group_pair_count(
            year,
            month,
            days,
            durations,
        ),
    decreases days.len(),
{
    if days.len() > 0 {
        let out = Date { year, month: month as u32, day: days[0] as u32 };
        lemma_pairs_for_outbound_len(out, durations);
        lemma_pairs_for_group_len(year, month, days.drop_first(), durations);
    }
}

/// Law: the expansion yields exactly one pair per valid grid date and
/// in-range duration: the full day-by-duration product, minus exactly the
/// calendar-invalid days and out-of-range durations it drops.
pub proof fn lemma_expand_exact_count(
    year: i32,
    months: Seq<u16>,
    days: Seq<Seq<u16>>,
    durations: Seq<u64>,
)
    ensures
        spec_expand(year, months, days, durations).len() == spec_grid_pair_count(
            year,
            months,
            days,
            durations,
        ),
    decreases months.len(),
{
    if months.len() > 0 && days.len() > 0 {
        lemma_pairs_for_group_len(year, months[0], days[0], durations);
        lemma_expand_exact_count(year, months.drop_first(), days.drop_first(), durations);
    }
}

proof fn lemma_pairs_for_outbound_count(out: Date, durations: Seq<u64>)
    requires
        forall|k: int| 0 <= k < durations.len() ==> spec_duration_fits(out, #[trigger] durations[k]),
    ensures
        spec_pairs_for_outbound(out, durations).len() == durations.len(),
    decreases durations.len(),
{
    if durations.len() > 0 {
        assert(forall|k: int|
            0 <= k < durations.drop_first().len() ==> spec_duration_fits(
                out,
                #[trigger] durations.drop_first()[k],
            ));
        lemma_pairs_for_outbound_count(out, durations.drop_first());
    }
}

proof fn lemma_pairs_for_group_count(year: i32, month: u16, days: Seq<u16>, durations: Seq<u64>)
    requires
        forall|j: int| 0 <= j < days.len() ==> spec_date_valid(spec_grid_date(year, month, #[trigger] days[j])),
        forall|j: int, k: int|
            0 <= j < days.len() && 0 <= k < durations.len() ==> spec_duration_fits(
                spec_grid_date(year, month, #[trigger] days[j]),
                #[trigger] durations[k],
            ),
    ensures
        spec_pairs_for_group(year, month, days, durations).len() == days.len() * durations.len(),
    decreases days.len(),
{
    if days.len() > 0 {
        let out = spec_grid_date(year, month, days[0]);
        assert(spec_date_valid(out));
        lemma_pairs_for_outbound_count(out, durations);
        assert(forall|j: int|
            0 <= j < days.drop_first().len() ==> days.drop_first()[j] == days[j + 1]);
        lemma_pairs_for_group_count(year, month, days.drop_first(), durations);
        assert(days.len() * durations.len() == durations.len() + (days.len() - 1)
            * durations.len()) by (nonlinear_arith);
    } else {
        assert(days.len() * durations.len() == 0) by (nonlinear_arith)
            requires days.len() == 0;
    }
}

/// Law: when every grid cell names a valid date and every duration keeps its
/// return date in the supported range, the expansion has exactly
/// (total number of listed days) times (number of durations) pairs.
pub proof fn lemma_expand_count(
    year: i32,
    months: Seq<u16>,
    days: Seq<Seq<u16>>,
    durations: Seq<u64>,
)
    requires
        months.len() == days.len(),
        forall|i: int, j: int|
            0 <= i < months.len() && 0 <= j < days[i].len() ==> spec_date_valid(
                spec_grid_date(year, months[i], #[trigger] days[i][j]),
            ),
        forall|i: int, j: int, k: int|
            0 <= i < months.len() && 0 <= j < days[i].len() && 0 <= k < durations.len()
                ==> spec_duration_fits(
                spec_grid_date(year, months[i], #[trigger] days[i][j]),
                #[trigger] durations[k],
            ),
    ensures
        spec_expand(year, months, days, durations).len() == spec_group_sizes_sum(days)
            * durations.len(),
    decreases months.len(),
{
    if months.len() == 0 {
        assert(spec_group_sizes_sum(days) * durations.len() == 0) by (nonlinear_arith)
            requires spec_group_sizes_sum(days) == 0;
    } else {
        assert(forall|j: int| 0 <= j < days[0].len() ==> days[0][j] == days[0][j]);
        lemma_pairs_for_group_count(year, months[0], days[0], durations);
        assert(forall|i: int|
            0 <= i < months.drop_first().len() ==> #[trigger] months.drop_first()[i] == months[i
                + 1] && days.drop_first()[i] == days[i + 1]);
        lemma_expand_count(year, months.drop_first(), days.drop_first(), durations);
        let a = days[0].len() as int;
        let b = spec_group_sizes_sum(days.drop_first());
        let d = durations.len() as int;
        assert((a + b) * d == a * d + b * d) by (nonlinear_arith);
    }
}

proof fn lemma_grid_membership_shift(
    out: Date,
    year: i32,
    months: Seq<u16>,
    days: Seq<Seq<u16>>,
)
    requires
        months.len() > 0,
        days.len() > 0,
        spec_outbound_in_grid(out, year, months.drop_first(), days.drop_first()),
    ensures
        spec_outbound_in_grid(out, year, months, days),
{
    let (i, j): (int, int) = choose|i: int, j: int|
        0 <= i < months.drop_first().len() && 0 <= i < days.drop_first().len() && 0 <= j
            < days.drop_first()[i].len() && out == spec_grid_date(
            year,
            months.drop_first()[i],
            #[trigger] days.drop_first()[i][j],
        );
    assert(months.drop_first()[i] == months[i + 1]);
    assert(days.drop_first()[i] == days[i + 1]);
    assert(0 <= i + 1 < months.len() && 0 <= i + 1 < days.len() && 0 <= j < days[i + 1].len()
        && out == spec_grid_date(year, months[i + 1], days[i + 1][j]));
}

proof fn lemma_pairs_for_outbound_first(out: Date, durations: Seq<u64>)
    ensures
        forall|p: int|
            0 <= p < spec_pairs_for_outbound(out, durations).len() ==> (
            #[trigger] spec_pairs_for_outbound(out, durations)[p]).0 == out,
    decreases durations.len(),
{
    if durations.len() > 0 {
        lemma_pairs_for_outbound_first(out, durations.drop_first());
        let whole = spec_pairs_for_outbound(out, durations);
        let rest = spec_pairs_for_outbound(out, durations.drop_first());
        assert forall|p: int| 0 <= p < whole.len() implies (#[trigger] whole[p]).0 == out by {
            if spec_duration_fits(out, durations[0]) {
                if p == 0 {
                    assert(whole[p] == (out, spec_return_date(out, durations[0])));
                } else {
                    assert(whole[p] == rest[p - 1]);
                }
            } else {
                assert(whole[p] == rest[p]);
            }
        }
    }
}

proof fn lemma_pairs_for_group_outbounds(
    year: i32,
    month: u16,
    days: Seq<u16>,
    durations: Seq<u64>,
)
    ensures
        forall|p: int|
            0 <= p < spec_pairs_for_group(year, month, days, durations).len() ==> exists|j: int|
                0 <= j < days.len() && (#[trigger] spec_pairs_for_group(
                    year,
                    month,
                    days,
                    durations,
                )[p]).0 == spec_grid_date(year, month, days[j]),
    decreases days.len(),
{
    if days.len() > 0 {
        let out = spec_grid_date(year, month, days[0]);
        lemma_pairs_for_outbound_first(out, durations);
        lemma_pairs_for_group_outbounds(year, month, days.drop_first(), durations);
        let whole = spec_pairs_for_group(year, month, days, durations);
        let head = if spec_date_valid(out) {
            spec_pairs_for_outbound(out, durations)
        } else {
            Seq::<(Date, Date)>::empty()
        };
        let rest = spec_pairs_for_group(year, month, days.drop_first(), durations);
        assert forall|p: int| 0 <= p < whole.len() implies exists|j: int|
            0 <= j < days.len() && (#[trigger] whole[p]).0 == spec_grid_date(year, month, days[j]) by {
            if p < head.len() {
                assert(whole[p] == head[p]);
                assert(whole[p].0 == spec_grid_date(year, month, days[0]));
            } else {
                assert(whole[p] == rest[p - head.len()]);
                let j0 = choose|j: int|
                    0 <= j < days.drop_first().len() && rest[p - head.len()].0 == spec_grid_date(
                        year,
                        month,
                        days.drop_first()[j],
                    );
                assert(days.drop_first()[j0] == days[j0 + 1]);
                assert(0 <= j0 + 1 < days.len() && whole[p].0 == spec_grid_date(
                    year,
                    month,
                    days[j0 + 1],
                ));
            }
        }
    }
}

/// Law: every outbound date in the expansion comes from the declared
/// (month, day group) product.
pub proof fn lemma_expand_outbounds(
    year: i32,
    months: Seq<u16>,
    days: Seq<Seq<u16>>,
    durations: Seq<u64>,
)
    requires
        months.len() == days.len(),
    ensures
        forall|p: int|
            0 <= p < spec_expand(year, months, days, durations).len() ==> spec_outbound_in_grid(
                (#[trigger] spec_expand(year, months, days, durations)[p]).0,
                year,
                months,
                days,
            ),
    decreases months.len(),
{
    if months.len() > 0 {
        lemma_pairs_for_group_outbounds(year, months[0], days[0], durations);
        lemma_expand_outbounds(year, months.drop_first(), days.drop_first(), durations);
        let whole = spec_expand(year, months, days, durations);
        let head = spec_pairs_for_group(year, months[0], days[0], durations);
        let rest = spec_expand(year, months.drop_first(), days.drop_first(), durations);
        assert forall|p: int| 0 <= p < whole.len() implies spec_outbound_in_grid(
            (#[trigger] whole[p]).0,
            year,
            months,
            days,
        ) by {
            if p < head.len() {
                assert(whole[p] == head[p]);
                let j0 = choose|j: int|
                    0 <= j < days[0].len() && head[p].0 == spec_grid_date(year, months[0], days[0][j]);
                assert(0 <= 0 < months.len() && 0 <= 0 < days.len() && 0 <= j0 < days[0].len()
                    && whole[p].0 == spec_grid_date(year, months[0], days[0][j0]));
            } else {
                assert(whole[p] == rest[p - head.len()]);
                lemma_grid_membership_shift(whole[p].0, year, months, days);
            }
        }
    }
}

/// Whether `c` is one of the ASCII whitespace characters the `--days`
/// parser strips.
pub open spec fn spec_is_space(c: char) -> bool {
    c == ' ' || c == '\t' || c == '\n' || c == '\r'
}

/// `s` with leading whitespace removed.
pub open spec fn spec_trim_front(s: Seq<char>) -> Seq<char>
    decreases s.len(),
{
    if s.len() > 0 && spec_is_space(s[0]) {
        spec_trim_front(s.drop_first())
    } else {
        s
    }
}

/// `s` with trailing whitespace removed.
pub open spec fn spec_trim_back(s: Seq<char>) -> Seq<char>
    decreases s.len(),
{
    if s.len() > 0 && spec_is_space(s.last()) {
        spec_trim_back(s.drop_last())
    } else {
        s
    }
}

/// `s` with leading and trailing whitespace removed.
pub open spec fn spec_trim(s: Seq<char>) -> Seq<char> {
    spec_trim_back(spec_trim_front(s))
}

/// Whether `c` is whitespace for the purposes of `--days` parsing.
fn is_space_char(c: char) -> (r: bool)
    ensures
        r == spec_is_space(c),
{
    c == ' ' || c == '\t' || c == '\n' || c == '\r'
}

/// Returns the trimmed copy of `s`.
fn trim_str(s: &str) -> (r: String)
    ensures
        r@ == spec_trim(s@),
{
    let len = s.unicode_len();
    let mut a: usize = 0;
    proof {
        assert(s@.skip(0) =~= s@);
    }
    while a < len && is_space_char(s.get_char(a))
        invariant
            0 <= a <= s@.len(),
            len == s@.len(),
            spec_trim_front(s@) == spec_trim_front(s@.skip(a as int)),
        decreases s@.len() - a,
    {
        proof {
            assert(s@.skip(a as int)[0] == s@[a as int]);
            assert(s@.skip(a as int).drop_first() =~= s@.skip(a as int + 1));
        }
        a = a + 1;
    }
    let ghost front = s@.skip(a as int);
    proof {
        assert(spec_trim_front(s@) == front);
    }
    let mut b: usize = len;
    proof {
        assert(front.take(len - a) =~= front);
    }
    while b > a && is_space_char(s.get_char(b - 1))
        invariant
            a <= b <= s@.len(),
            len == s@.len(),
            front == s@.skip(a as int),
            spec_trim_front(s@) == front,
            spec_trim_back(front) == spec_trim_back(front.take(b - a)),
        decreases b,
    {
        proof {
            let part = front.take(b - a);
            assert(part.last() == s@[b - 1]);
            assert(part.drop_last() =~= front.take(b - 1 - a));
        }
        b = b - 1;
    }
    proof {
        let part = front.take(b - a);
        if b > a {
            assert(part.last() == s@[b - 1]);
        }
        assert(spec_trim_back(part) == part);
        assert(part =~= s@.subrange(a as int, b as int));
    }
    s.substring_char(a, b).to_owned()
}

/// Index of the first occurrence of `sep` in `s`, or `s.len()` if none.
pub open spec fn spec_first_at(s: Seq<char>, sep: char) -> int
    decreases s.len(),
{
    if s.len() == 0 {
        0
    } else if s[0] == sep {
        0
    } else {
        1 + spec_first_at(s.drop_first(), sep)
    }
}

pub proof fn lemma_first_at_characterisation(s: Seq<char>, sep: char, i: int)
    requires
        0 <= i <= s.len(),
        forall|k: int| 0 <= k < i ==> s[k] != sep,
        i < s.len() ==> s[i] == sep,
    ensures
        spec_first_at(s, sep) == i,
    decreases s.len(),
{
    if s.len() > 0 && s[0] != sep {
        assert(forall|k: int| 0 <= k < i - 1 ==> s.drop_first()[k] == s[k + 1]);
        lemma_first_at_characterisation(s.drop_first(), sep, i - 1);
    }
}

/// `s` divided at every occurrence of `sep`, the separators removed; a
/// string without `sep` yields itself as its only part.
pub open spec fn spec_split(s: Seq<char>, sep: char) -> Seq<Seq<char>>
    decreases s.len(),
{
    let i = spec_first_at(s, sep);
    if 0 <= i < s.len() {
        seq![s.take(i)] + spec_split(s.skip(i + 1), sep)
    } else {
        seq![s]
    }
}

proof fn lemma_first_at_in_range(s: Seq<char>, sep: char)
    ensures
        0 <= spec_first_at(s, sep) <= s.len(),
    decreases s.len(),
{
    if s.len() > 0 && s[0] != sep {
        lemma_first_at_in_range(s.drop_first(), sep);
    }
}

/// Splits `s` at every occurrence of `sep`.
fn split_str(s: &str, sep: char) -> (parts: Vec<String>)
    ensures
        parts@.map_values(|p: String| p@) == spec_split(s@, sep),
{
    let len = s.unicode_len();
    let mut parts: Vec<String> = Vec::new();
    let mut start: usize = 0;
    proof {
        assert(s@.skip(0) =~= s@);
        assert(parts@.map_values(|p: String| p@) + spec_split(s@, sep) =~= spec_split(s@, sep));
    }
    loop
        invariant_except_break
            spec_split(s@, sep) == parts@.map_values(|p: String| p@) + spec_split(
                s@.skip(start as int),
                sep,
            ),
        invariant
            0 <= start <= len,
            len == s@.len(),
        ensures
            parts@.map_values(|p: String| p@) == spec_split(s@, sep),
        decreases len - start + 1,
    {
        let ghost rem = s@.skip(start as int);
        let mut j: usize = start;
        while j < len && s.get_char(j) != sep
            invariant
                start <= j <= len,
                len == s@.len(),
                forall|k: int| start <= k < j ==> s@[k] != sep,
            decreases len - j,
        {
            j = j + 1;
        }
        proof {
            assert(forall|k: int| 0 <= k < j - start ==> rem[k] == s@[k + start] && rem[k] != sep);
            if j < len {
                assert(rem[j - start] == s@[j as int]);
            }
            lemma_first_at_characterisation(rem, sep, j - start);
        }
        let piece = s.substring_char(start, j).to_owned();
        let ghost parts0 = parts@;
        parts.push(piece);
        proof {
            assert(parts@ =~= parts0.push(piece));
            assert(piece@ =~= rem.take(j - start));
            assert(parts@.map_values(|p: String| p@) =~= parts0.map_values(|p: String| p@).push(
                piece@,
            ));
        }
        if j < len {
            proof {
                assert(rem.skip(j - start + 1) =~= s@.skip(j as int + 1));
                assert(spec_split(rem, sep) == seq![rem.take(j - start)] + spec_split(
                    s@.skip(j as int + 1),
                    sep,
                ));
                assert(parts0.map_values(|p: String| p@) + (seq![piece@] + spec_split(
                    s@.skip(j as int + 1),
                    sep,
                )) =~= parts@.map_values(|p: String| p@) + spec_split(s@.skip(j as int + 1), sep));
            }
            start = j + 1;
        } else {
            proof {
                assert(rem.take(j - start) =~= rem);
                assert(spec_split(rem, sep) == seq![rem]);
                assert(parts0.map_values(|p: String| p@) + seq![rem] =~= parts@.map_values(
                    |p: String| p@,
                ));
            }
            break;
        }
    }
    parts
}

/// Whether `c` is an ASCII digit.
pub open spec fn spec_is_digit(c: char) -> bool {
    48 <= c as u32 <= 57
}

/// The numeric value of the ASCII digit `c` (0 for any other character).
pub open spec fn spec_digit_val(c: char) -> int {
    if spec_is_digit(c) {
        c as u32 - 48
    } else {
        0
    }
}

/// Whether every character of `s` is an ASCII digit.
pub open spec fn spec_all_digits(s: Seq<char>) -> bool {
    forall|i: int| 0 <= i < s.len() ==> spec_is_digit(#[trigger] s[i])
}

/// The number the digit string `s` denotes in base ten.
pub open spec fn spec_digits_val(s: Seq<char>) -> int
    decreases s.len(),
{
    if s.len() == 0 {
        0
    } else {
        spec_digits_val(s.drop_last()) * 10 + spec_digit_val(s.last())
    }
}

/// `s` with one leading `+` removed, if present.
pub open spec fn spec_strip_plus(s: Seq<char>) -> Seq<char> {
    if s.len() > 0 && s[0] == '+' {
        s.drop_first()
    } else {
        s
    }
}

/// The number entry grammar: an optional leading `+`, then one or more
/// ASCII digits, denoting a value that fits in a `u16`.  Anything else is
/// rejected.
pub open spec fn spec_parse_u16(s: Seq<char>) -> Option<u16> {
    let t = spec_strip_plus(s);
    if t.len() > 0 && spec_all_digits(t) && spec_digits_val(t) <= u16::MAX {
        Some(spec_digits_val(t) as u16)
    } else {
        None
    }
}

pub proof fn lemma_digits_val_nonneg(s: Seq<char>)
    ensures
        spec_digits_val(s) >= 0,
    decreases s.len(),
{
    if s.len() > 0 {
        lemma_digits_val_nonneg(s.drop_last());
        assert(spec_digit_val(s.last()) >= 0);
    }
}

pub proof fn lemma_digits_val_prefix(s: Seq<char>, i: int)
    requires
        0 <= i <= s.len(),
    ensures
        spec_digits_val(s.take(i)) <= spec_digits_val(s),
    decreases s.len() - i,
{
    if i < s.len() {
        assert(s.take(i + 1).drop_last() =~= s.take(i));
        assert(s.take(i + 1).last() == s[i]);
        lemma_digits_val_nonneg(s.take(i));
        assert(spec_digits_val(s.take(i + 1)) == spec_digits_val(s.take(i)) * 10 + spec_digit_val(
            s[i],
        ));
        lemma_digits_val_prefix(s, i + 1);
    } else {
        assert(s.take(i) =~= s);
    }
}

/// Parses a number entry, accepting exactly the grammar of
/// `spec_parse_u16`.
#[verifier::loop_isolation(false)]
fn parse_u16_str(s: &str) -> (r: Option<u16>)
    ensures
        r == spec_parse_u16(s@),
{
    let len = s.unicode_len();
    let mut i: usize = 0;
    if len > 0 && s.get_char(0) == '+' {
        i = 1;
    }
    let ghost start = i as int;
    let ghost t = spec_strip_plus(s@);
    proof {
        assert(t.len() == s@.len() - start);
        assert(forall|k: int| 0 <= k < t.len() ==> t[k] == s@[k + start]);
    }
    if i >= len {
        return None;
    }
    let mut val: u32 = 0;
    while i < len
        invariant
            start <= i <= len,
            len == s@.len(),
            t.len() == s@.len() - start,
            forall|k: int| 0 <= k < t.len() ==> t[k] == s@[k + start],
            spec_all_digits(t.take(i - start)),
            val == spec_digits_val(t.take(i - start)),
            val <= 65535,
        decreases len - i,
    {
        let c = s.get_char(i);
        let cv = c as u32;
        if cv < 48 || cv > 57 {
            proof {
                assert(t[i - start] == s@[i as int]);
                assert(!spec_is_digit(t[i - start]));
                assert(!spec_all_digits(t));
                assert(spec_parse_u16(s@) is None);
            }
            return None;
        }
        let d = cv - 48;
        proof {
            assert(t.take(i - start + 1).drop_last() =~= t.take(i - start));
            assert(t.take(i - start + 1).last() == t[i - start]);
            assert(t[i - start] == s@[i as int] == c);
        }
        val = val * 10 + d;
        if val > 65535 {
            proof {
                assert(val == spec_digits_val(t.take(i - start + 1)));
                lemma_digits_val_prefix(t, i - start + 1);
                assert(spec_digits_val(t) > 65535);
                assert(spec_parse_u16(s@) is None);
            }
            return None;
        }
        proof {
            assert(spec_all_digits(t.take(i - start + 1)));
        }
        i = i + 1;
    }
    proof {
        assert(t.take(len - start) =~= t);
    }
    Some(val as u16)
}

/// The numbers a sequence of entries denotes: each entry parsed by the
/// `u16` grammar.  An entry that fails the grammar contributes nothing
/// here; the parser rejects any input that contains one.
pub open spec fn spec_collect_u16s(parts: Seq<Seq<char>>) -> Seq<u16>
    decreases parts.len(),
{
    if parts.len() == 0 {
        Seq::empty()
    } else {
        let rest = spec_collect_u16s(parts.drop_first());
        match spec_parse_u16(parts[0]) {
            Some(v) => seq![v] + rest,
            None => rest,
        }
    }
}

/// One day group: the group trimmed, divided at commas, each entry parsed
/// as a number.
pub open spec fn spec_parse_group(g: Seq<char>) -> Seq<u16> {
    spec_collect_u16s(spec_split(spec_trim(g), ','))
}

/// Whether the entry `t` is a number under the `u16` grammar.
pub open spec fn spec_entry_ok(t: Seq<char>) -> bool {
    spec_parse_u16(t) is Some
}

/// Whether every entry of the day group `g` is a number: a group with an
/// entry that is not is malformed and rejected.
pub open spec fn spec_group_ok(g: Seq<char>) -> bool {
    forall|k: int|
        0 <= k < spec_split(spec_trim(g), ',').len() ==> spec_entry_ok(
            #[trigger] spec_split(spec_trim(g), ',')[k],
        )
}

/// Whether every day group of the `--days` value `s` is well formed.
pub open spec fn spec_days_ok(s: Seq<char>) -> bool {
    forall|k: int|
        0 <= k < spec_split(spec_trim(s), ':').len() ==> spec_group_ok(
            #[trigger] spec_split(spec_trim(s), ':')[k],
        )
}

/// One parsed day group per part.
pub open spec fn spec_groups(parts: Seq<Seq<char>>) -> Seq<Seq<u16>>
    decreases parts.len(),
{
    if parts.len() == 0 {
        Seq::empty()
    } else {
        seq![spec_parse_group(parts[0])] + spec_groups(parts.drop_first())
    }
}

/// The `--days` grammar: the input trimmed and divided at colons into day
/// groups, each group divided at commas into numbers.
pub open spec fn spec_parse_input_days(s: Seq<char>) -> Seq<Seq<u16>> {
    spec_groups(spec_split(spec_trim(s), ':'))
}

/// Parses one day group, or nothing when an entry is not a number.
fn parse_group(g: &str) -> (r: Option<Vec<u16>>)
    ensures
        (r is Some) <==> spec_group_ok(g@),
        r matches Some(v) ==> v@ == spec_parse_group(g@),
{
    let trimmed = trim_str(g);
    let entries = split_str(trimmed.as_str(), ',');
    let ghost eviews = entries@.map_values(|p: String| p@);
    let mut r: Vec<u16> = Vec::new();
    let mut k: usize = 0;
    proof {
        assert(eviews.skip(0) =~= eviews);
        assert(r@ + spec_collect_u16s(eviews) =~= spec_collect_u16s(eviews));
        assert(eviews == spec_split(spec_trim(g@), ','));
    }
    while k < entries.len()
        invariant
            0 <= k <= entries@.len(),
            eviews == entries@.map_values(|p: String| p@),
            eviews == spec_split(spec_trim(g@), ','),
            forall|j: int| 0 <= j < k ==> spec_entry_ok(#[trigger] eviews[j]),
            spec_collect_u16s(eviews) == r@ + spec_collect_u16s(eviews.skip(k as int)),
        decreases entries@.len() - k,
    {
        proof {
            assert(eviews.skip(k as int)[0] == entries@[k as int]@);
            assert(eviews.skip(k as int).drop_first() =~= eviews.skip(k as int + 1));
        }
        let ghost r0 = r@;
        match parse_u16_str(entries[k].as_str()) {
            Some(v) => {
                r.push(v);
                proof {
                    assert(r@ =~= r0.push(v));
                    assert(r0 + (seq![v] + spec_collect_u16s(eviews.skip(k as int + 1))) =~= r@
                        + spec_collect_u16s(eviews.skip(k as int + 1)));
                }
            },
            None => {
                proof {
                    assert(!spec_entry_ok(eviews[k as int]));
                    assert(!spec_group_ok(g@));
                }
                return None;
            },
        }
        k = k + 1;
    }
    proof {
        assert(eviews.skip(eviews.len() as int) =~= Seq::<Seq<char>>::empty());
        assert(r@ + Seq::<u16>::empty() =~= r@);
        assert(spec_group_ok(g@));
    }
    Some(r)
}

/// Parses the `--days` value: colon-separated day groups of comma-separated
/// day numbers, for example `3,4:5,6`.  A value with an entry that is not a
/// number is malformed and rejected whole.
pub fn parse_input_days(s: &str) -> (r: Result<Vec<Vec<u16>>, String>)
    ensures
        spec_days_ok(s@) ==> (r matches Ok(v) && v@.map_values(|g: Vec<u16>| g@)
            == spec_parse_input_days(s@)),
        !spec_days_ok(s@) ==> (r matches Err(m) && m@
            == "Invalid days: each entry must be a number"@),
{
    let trimmed = trim_str(s);
    let groups = split_str(trimmed.as_str(), ':');
    let ghost gviews = groups@.map_values(|p: String| p@);
    let mut out: Vec<Vec<u16>> = Vec::new();
    let mut k: usize = 0;
    proof {
        assert(gviews.skip(0) =~= gviews);
        assert(out@.map_values(|g: Vec<u16>| g@) + spec_groups(gviews) =~= spec_groups(gviews));
        assert(gviews == spec_split(spec_trim(s@), ':'));
    }
    while k < groups.len()
        invariant
            0 <= k <= groups@.len(),
            gviews == groups@.map_values(|p: String| p@),
            gviews == spec_split(spec_trim(s@), ':'),
            forall|j: int| 0 <= j < k ==> spec_group_ok(#[trigger] gviews[j]),
            spec_groups(gviews) == out@.map_values(|g: Vec<u16>| g@) + spec_groups(
                gviews.skip(k as int),
            ),
        decreases groups@.len() - k,
    {
        proof {
            assert(gviews.skip(k as int)[0] == groups@[k as int]@);
            assert(gviews.skip(k as int).drop_first() =~= gviews.skip(k as int + 1));
        }
        let ghost out0 = out@;
        let parsed = match parse_group(groups[k].as_str()) {
            Some(v) => v,
            None => {
                proof {
                    assert(!spec_group_ok(gviews[k as int]));
                    assert(!spec_days_ok(s@));
                }
                return Err("Invalid days: each entry must be a number".to_owned());
            },
        };
        out.push(parsed);
        proof {
            assert(out@ =~= out0.push(parsed));
            assert(out@.map_values(|g: Vec<u16>| g@) =~= out0.map_values(|g: Vec<u16>| g@).push(
                parsed@,
            ));
            assert(out0.map_values(|g: Vec<u16>| g@) + (seq![parsed@] + spec_groups(
                gviews.skip(k as int + 1),
            )) =~= out@.map_values(|g: Vec<u16>| g@) + spec_groups(gviews.skip(k as int + 1)));
        }
        k = k + 1;
    }
    proof {
        assert(gviews.skip(gviews.len() as int) =~= Seq::<Seq<char>>::empty());
        assert(out@.map_values(|g: Vec<u16>| g@) + Seq::<Seq<u16>>::empty() =~= out@.map_values(
            |g: Vec<u16>| g@,
        ));
        assert(spec_days_ok(s@));
    }
    Ok(out)
}

} // verus!
