//! KPI trend values over a caller-supplied month window: total trips in the
//! window, average trips per month of the window, the busiest month's trip
//! count, and the average total amount. Each value is a current/previous/
//! trend triple; the previous value and the trend are zero placeholders — no
//! genuine prior-period comparison is computed.
use vstd::prelude::*;
use crate::data::{Dataset, TripFact, Date, DateDim, spec_month_floor, find_date, lookup_date};
use crate::frac::{Frac, avg_frac, make_avg};
use crate::group::{GroupKey, GroupKeyV, GroupItem, GroupAcc, ItemV, view_item, view_items,
    key_view, key_eq, items_wf, group_rows, group_state_ok, acc_ok, gv_count, lemma_g_gv,
    lemma_gv_zero, lemma_gv_count_bounds};

verus! {

/// An inclusive range of calendar months.
pub struct MonthRange {
    pub start_year: i32,
    pub start_month: i32,
    pub end_year: i32,
    pub end_month: i32,
}

/// The linear index of a calendar month.
pub open spec fn month_index(y: int, m: int) -> int {
    y * 12 + m
}

impl MonthRange {
    /// The range runs forward.
    pub open spec fn wf(self) -> bool {
        month_index(self.start_year as int, self.start_month as int) <= month_index(
            self.end_year as int,
            self.end_month as int,
        )
    }

    /// Number of months the range spans.
    pub open spec fn spec_periods(self) -> int {
        month_index(self.end_year as int, self.end_month as int) - month_index(
            self.start_year as int,
            self.start_month as int,
        ) + 1
    }

    /// Number of months the range spans.
    pub fn periods(&self) -> (r: u64)
        requires
            self.wf(),
        ensures
            r == self.spec_periods(),
    {
        let s: i64 = (self.start_year as i64) * 12 + (self.start_month as i64);
        let e: i64 = (self.end_year as i64) * 12 + (self.end_month as i64);
        (e - s + 1) as u64
    }
}

/// The date-dimension row lies in the window, judged by its year and month
/// columns.
pub open spec fn in_window(d: DateDim, r: MonthRange) -> bool {
    month_index(r.start_year as int, r.start_month as int) <= month_index(
        d.year as int,
        d.month as int,
    ) <= month_index(r.end_year as int, r.end_month as int)
}

/// Executable window test.
fn in_window_exec(d: &DateDim, r: &MonthRange) -> (b: bool)
    ensures
        b == in_window(*d, *r),
{
    let s: i64 = (r.start_year as i64) * 12 + (r.start_month as i64);
    let e: i64 = (r.end_year as i64) * 12 + (r.end_month as i64);
    let m: i64 = (d.year as i64) * 12 + (d.month as i64);
    s <= m && m <= e
}

/// The window's trip items among the first `n` trips: trips whose pickup
/// date resolves to a window row, keyed by that row's calendar month.
pub open spec fn wt_items_prefix(ds: Dataset, r: MonthRange, n: int) -> Seq<ItemV>
    decreases n,
{
    if n <= 0 {
        Seq::empty()
    } else {
        let rest = wt_items_prefix(ds, r, n - 1);
        let t = ds.trips@[n - 1];
        match t.pickup_date_key {
            Some(k) => match find_date(ds.dates@, k) {
                Some(row) => if in_window(row, r) {
                    rest.push(
                        ItemV {
                            key: GroupKeyV::Month(spec_month_floor(row.full_date)),
                            measures: Seq::empty(),
                        },
                    )
                } else {
                    rest
                },
                None => None_rest(rest),
            },
            None => None_rest(rest),
        }
    }
}

/// The unchanged item sequence (helps the recursion read uniformly).
pub open spec fn None_rest(rest: Seq<ItemV>) -> Seq<ItemV> {
    rest
}

/// Sum of the non-null total amounts of the window's trips among the first
/// `n`.
pub open spec fn win_sum(ds: Dataset, r: MonthRange, n: int) -> int
    decreases n,
{
    if n <= 0 {
        0
    } else {
        win_sum(ds, r, n - 1) + ({
            let t = ds.trips@[n - 1];
            match t.pickup_date_key {
                Some(k) => match find_date(ds.dates@, k) {
                    Some(row) => if in_window(row, r) {
                        match t.total_amount {
                            Some(v) => v as int,
                            None => 0,
                        }
                    } else {
                        0
                    },
                    None => 0,
                },
                None => 0,
            }
        })
    }
}

/// Number of the window's trips among the first `n` with a non-null total
/// amount.
pub open spec fn win_cnt(ds: Dataset, r: MonthRange, n: int) -> int
    decreases n,
{
    if n <= 0 {
        0
    } else {
        win_cnt(ds, r, n - 1) + ({
            let t = ds.trips@[n - 1];
            match t.pickup_date_key {
                Some(k) => match find_date(ds.dates@, k) {
                    Some(row) => if in_window(row, r) && t.total_amount is Some {
                        1int
                    } else {
                        0int
                    },
                    None => 0int,
                },
                None => 0int,
            }
        })
    }
}

/// The month items of the window's date-dimension rows among the first `n`.
pub open spec fn wm_items_prefix(ds: Dataset, r: MonthRange, n: int) -> Seq<ItemV>
    decreases n,
{
    if n <= 0 {
        Seq::empty()
    } else {
        let rest = wm_items_prefix(ds, r, n - 1);
        if in_window(ds.dates@[n - 1], r) {
            rest.push(
                ItemV {
                    key: GroupKeyV::Month(spec_month_floor(ds.dates@[n - 1].full_date)),
                    measures: Seq::empty(),
                },
            )
        } else {
            rest
        }
    }
}

/// `mo` is the calendar month of some window row of the date dimension.
pub open spec fn is_window_month(ds: Dataset, r: MonthRange, mo: Date) -> bool {
    exists|dd: int|
        0 <= dd < ds.dates@.len() && in_window(#[trigger] ds.dates@[dd], r) && spec_month_floor(
            ds.dates@[dd].full_date,
        ) == mo
}

/// Trip count of a window month.
pub open spec fn month_count(ds: Dataset, r: MonthRange, mo: Date) -> int {
    let wt = wt_items_prefix(ds, r, ds.trips@.len() as int);
    gv_count(wt, GroupKeyV::Month(mo), wt.len() as int)
}

/// Every window month-item key has the right shape and names a window month.
pub proof fn lemma_wm_items_keys(ds: Dataset, r: MonthRange, n: int)
    requires
        0 <= n <= ds.dates@.len(),
    ensures
        forall|x: int|
            0 <= x < wm_items_prefix(ds, r, n).len() ==> {
                let k = (#[trigger] wm_items_prefix(ds, r, n)[x]).key;
                k is Month && is_window_month(ds, r, k->Month_0)
            },
    decreases n,
{
    if n > 0 {
        lemma_wm_items_keys(ds, r, n - 1);
        assert forall|x: int|
            0 <= x < wm_items_prefix(ds, r, n).len() implies {
            let k = (#[trigger] wm_items_prefix(ds, r, n)[x]).key;
            k is Month && is_window_month(ds, r, k->Month_0)
        } by {
            if x < wm_items_prefix(ds, r, n - 1).len() {
                assert(wm_items_prefix(ds, r, n)[x] == wm_items_prefix(ds, r, n - 1)[x]);
            } else {
                assert(in_window(ds.dates@[n - 1], r));
            }
        }
    }
}

/// Every window trip-item key has the right shape.
pub proof fn lemma_wt_items_keys(ds: Dataset, r: MonthRange, n: int)
    requires
        n >= 0,
    ensures
        forall|x: int|
            0 <= x < wt_items_prefix(ds, r, n).len() ==> (#[trigger] wt_items_prefix(
                ds,
                r,
                n,
            )[x]).key is Month,
    decreases n,
{
    if n > 0 {
        lemma_wt_items_keys(ds, r, n - 1);
        assert forall|x: int|
            0 <= x < wt_items_prefix(ds, r, n).len() implies (#[trigger] wt_items_prefix(
            ds,
            r,
            n,
        )[x]).key is Month by {
            if x < wt_items_prefix(ds, r, n - 1).len() {
                assert(wt_items_prefix(ds, r, n)[x] == wt_items_prefix(ds, r, n - 1)[x]);
            }
        }
    }
}

/// One KPI value: the current figure with zero placeholders for the previous
/// period and the percentage change.
pub struct TrendValue {
    pub current: Frac,
    pub previous: Frac,
    pub trend: Frac,
}

/// A current value with zero placeholders.
pub fn trend_of(current: Frac) -> (r: TrendValue)
    ensures
        r.current == current,
        r.previous == Frac::spec_zero(),
        r.trend == Frac::spec_zero(),
{
    TrendValue { current, previous: Frac::zero(), trend: Frac::zero() }
}

/// The four KPI trend values.
pub struct KpiTrendData {
    pub total_trips: TrendValue,
    pub avg_trips_per_period: TrendValue,
    pub max_trips_per_period: TrendValue,
    pub avg_amount_overall: TrendValue,
}

/// Build the window trip items, also accumulating the window's total-amount
/// sum and count.
#[verifier::rlimit(100)]
fn wt_build(ds: &Dataset, r: &MonthRange) -> (res: (Vec<GroupItem>, i128, u64))
    ensures
        view_items(res.0@) == wt_items_prefix(*ds, *r, ds.trips@.len() as int),
        items_wf(res.0@, 0),
        res.1 == win_sum(*ds, *r, ds.trips@.len() as int),
        res.2 == win_cnt(*ds, *r, ds.trips@.len() as int),
{
    let mut items: Vec<GroupItem> = Vec::new();
    let mut sum: i128 = 0;
    let mut cnt: u64 = 0;
    let mut i: usize = 0;
    proof {
        assert(view_items(items@) =~= wt_items_prefix(*ds, *r, 0));
    }
    while i < ds.trips.len()
        invariant
            i <= ds.trips@.len(),
            items_wf(items@, 0),
            view_items(items@) == wt_items_prefix(*ds, *r, i as int),
            sum == win_sum(*ds, *r, i as int),
            cnt == win_cnt(*ds, *r, i as int),
            cnt <= i,
            -(i as int) * 0x8000_0000_0000_0000 <= sum <= (i as int) * 0x7fff_ffff_ffff_ffff,
        decreases ds.trips@.len() - i,
    {
        proof {
            assert((-(i as int) - 1) * 0x8000_0000_0000_0000 == -(i as int) * 0x8000_0000_0000_0000
                - 0x8000_0000_0000_0000) by (nonlinear_arith);
            assert(((i as int) + 1) * 0x7fff_ffff_ffff_ffff == (i as int) * 0x7fff_ffff_ffff_ffff
                + 0x7fff_ffff_ffff_ffff) by (nonlinear_arith);
        }
        let t = &ds.trips[i];
        match t.pickup_date_key {
            Some(k) => match lookup_date(&ds.dates, k) {
                Some(idx) => {
                    if in_window_exec(&ds.dates[idx], r) {
                        let d = ds.dates[idx].full_date.month_floor();
                        let measures: Vec<Option<i64>> = Vec::new();
                        let g = GroupItem { key: GroupKey::Month(d), measures };
                        proof {
                            assert(g.measures@ =~= Seq::<Option<i64>>::empty());
                            assert(view_item(g) == wt_items_prefix(*ds, *r, i as int + 1).last());
                            assert(view_items(items@.push(g)) =~= view_items(items@).push(
                                view_item(g),
                            ));
                            assert(view_items(items@.push(g)) =~= wt_items_prefix(
                                *ds,
                                *r,
                                i as int + 1,
                            ));
                        }
                        items.push(g);
                        match t.total_amount {
                            Some(v) => {
                                sum = sum + (v as i128);
                                cnt = cnt + 1;
                            },
                            None => {},
                        }
                    }
                },
                None => {},
            },
            None => {},
        }
        i += 1;
    }
    (items, sum, cnt)
}

/// Build the window month items from the date dimension.
fn wm_build(ds: &Dataset, r: &MonthRange) -> (items: Vec<GroupItem>)
    ensures
        view_items(items@) == wm_items_prefix(*ds, *r, ds.dates@.len() as int),
        items_wf(items@, 0),
{
    let mut items: Vec<GroupItem> = Vec::new();
    let mut i: usize = 0;
    proof {
        assert(view_items(items@) =~= wm_items_prefix(*ds, *r, 0));
    }
    while i < ds.dates.len()
        invariant
            i <= ds.dates@.len(),
            items_wf(items@, 0),
            view_items(items@) == wm_items_prefix(*ds, *r, i as int),
        decreases ds.dates@.len() - i,
    {
        if in_window_exec(&ds.dates[i], r) {
            let measures: Vec<Option<i64>> = Vec::new();
            let g = GroupItem {
                key: GroupKey::Month(ds.dates[i].full_date.month_floor()),
                measures,
            };
            proof {
                assert(g.measures@ =~= Seq::<Option<i64>>::empty());
                assert(view_item(g) == wm_items_prefix(*ds, *r, i as int + 1).last());
                assert(view_items(items@.push(g)) =~= view_items(items@).push(view_item(g)));
                assert(view_items(items@.push(g)) =~= wm_items_prefix(*ds, *r, i as int + 1));
            }
            items.push(g);
        }
        i += 1;
    }
    items
}

/// The busiest window month's trip count: zero when the window holds no
/// date-dimension row, else the maximum, over the window's months, of the
/// month's trip count — a count that some window month attains.
#[verifier::rlimit(100)]
fn peak_month_count(ds: &Dataset, r: &MonthRange) -> (peak: u64)
    ensures
        wm_items_prefix(*ds, *r, ds.dates@.len() as int).len() == 0 ==> peak == 0,
        wm_items_prefix(*ds, *r, ds.dates@.len() as int).len() > 0 ==> {
            &&& exists|mo: Date|
                is_window_month(*ds, *r, mo) && peak == #[trigger] month_count(*ds, *r, mo)
            &&& forall|mo: Date|
                is_window_month(*ds, *r, mo) ==> #[trigger] month_count(*ds, *r, mo) <= peak
        },
{
    let wm_items = wm_build(ds, r);
    let ghost nd = wm_items@.len() as int;
    let wm_accs = group_rows(&wm_items, 0);
    let wt = wt_build(ds, r);
    let wt_items = wt.0;
    let ghost wtv = wt_items_prefix(*ds, *r, ds.trips@.len() as int);
    let ghost nv = wt_items@.len() as int;
    let wt_accs = group_rows(&wt_items, 0);
    let mut peak: u64 = 0;
    let ghost wmv = wm_items_prefix(*ds, *r, ds.dates@.len() as int);
    let mut k: usize = 0;
    while k < wm_accs.len()
        invariant
            k <= wm_accs@.len(),
            wmv == view_items(wm_items@),
            wmv == wm_items_prefix(*ds, *r, ds.dates@.len() as int),
            wtv == view_items(wt_items@),
            wtv == wt_items_prefix(*ds, *r, ds.trips@.len() as int),
            nd == wm_items@.len() as int,
            nv == wt_items@.len() as int,
            group_state_ok(wm_items@, wm_accs@, 0, nd),
            group_state_ok(wt_items@, wt_accs@, 0, nv),
            forall|w: int|
                0 <= w < k ==> #[trigger] month_count(
                    *ds,
                    *r,
                    key_view(wm_accs@[w].key)->Month_0,
                ) <= peak,
            k > 0 ==> exists|w: int|
                0 <= w < k && peak == #[trigger] month_count(
                    *ds,
                    *r,
                    key_view(wm_accs@[w].key)->Month_0,
                ),
            k == 0 ==> peak == 0,
        decreases wm_accs@.len() - k,
    {
        let da = &wm_accs[k];
        proof {
            assert(acc_ok(wm_items@, wm_accs@[k as int], 0, nd));
            let w0 = choose|w0: int|
                0 <= w0 < nd && key_view((#[trigger] wm_items@[w0]).key) == key_view(
                    wm_accs@[k as int].key,
                );
            assert(wmv[w0] == view_item(wm_items@[w0]));
            lemma_wm_items_keys(*ds, *r, ds.dates@.len() as int);
            assert(key_view(wm_accs@[k as int].key) is Month);
        }
        let c: u64 = match find_wt(&wt_accs, &da.key) {
            Some(idx) => {
                let ta = &wt_accs[idx];
                proof {
                    assert(acc_ok(wt_items@, wt_accs@[idx as int], 0, nv));
                    lemma_g_gv(wt_items@, key_view(ta.key), 0, nv);
                }
                ta.count
            },
            None => {
                proof {
                    let mo = key_view(wm_accs@[k as int].key)->Month_0;
                    assert forall|j: int|
                        0 <= j < nv implies (#[trigger] wtv[j]).key != GroupKeyV::Month(mo) by {
                        if wtv[j].key == GroupKeyV::Month(mo) {
                            assert(wtv[j] == view_item(wt_items@[j]));
                            let w = choose|w: int|
                                0 <= w < wt_accs@.len() && key_view((#[trigger] wt_accs@[w]).key)
                                    == key_view(wt_items@[j].key);
                        }
                    }
                    lemma_gv_zero(wtv, GroupKeyV::Month(mo), 0, nv);
                }
                0
            },
        };
        proof {
            let mo = key_view(wm_accs@[k as int].key)->Month_0;
            assert(GroupKeyV::Month(mo) == key_view(wm_accs@[k as int].key));
            assert(c == month_count(*ds, *r, mo));
        }
        if c > peak {
            peak = c;
        }
        k += 1;
    }
    proof {
        if wmv.len() > 0 {
            assert(wm_accs@.len() > 0) by {
                assert(key_view(wm_items@[0].key) == wmv[0].key);
                let w = choose|w: int|
                    0 <= w < wm_accs@.len() && key_view((#[trigger] wm_accs@[w]).key) == key_view(
                        wm_items@[0].key,
                    );
            }
            lemma_wm_items_keys(*ds, *r, ds.dates@.len() as int);
            let bw = choose|w: int|
                0 <= w < wm_accs@.len() && peak == #[trigger] month_count(
                    *ds,
                    *r,
                    key_view(wm_accs@[w].key)->Month_0,
                );
            assert(acc_ok(wm_items@, wm_accs@[bw], 0, nd));
            let w0 = choose|w0: int|
                0 <= w0 < nd && key_view((#[trigger] wm_items@[w0]).key) == key_view(
                    wm_accs@[bw].key,
                );
            assert(wmv[w0] == view_item(wm_items@[w0]));
            assert(is_window_month(*ds, *r, key_view(wm_accs@[bw].key)->Month_0));
            assert forall|mo: Date|
                is_window_month(*ds, *r, mo) implies #[trigger] month_count(*ds, *r, mo)
                <= peak by {
                let dd = choose|dd: int|
                    0 <= dd < ds.dates@.len() && in_window(#[trigger] ds.dates@[dd], *r)
                        && spec_month_floor(ds.dates@[dd].full_date) == mo;
                lemma_wm_in_items(*ds, *r, ds.dates@.len() as int, dd);
                let x = choose|x: int|
                    0 <= x < wmv.len() && (#[trigger] wmv[x]).key == GroupKeyV::Month(mo);
                assert(wmv[x] == view_item(wm_items@[x]));
                let w = choose|w: int|
                    0 <= w < wm_accs@.len() && key_view((#[trigger] wm_accs@[w]).key) == key_view(
                        wm_items@[x].key,
                    );
                assert(month_count(*ds, *r, key_view(wm_accs@[w].key)->Month_0) <= peak);
            }
        }
    }
    peak
}

/// A window date-dimension row's month occurs among the window month items.
pub proof fn lemma_wm_in_items(ds: Dataset, r: MonthRange, n: int, dd: int)
    requires
        0 <= dd < n,
        in_window(ds.dates@[dd], r),
    ensures
        exists|x: int|
            0 <= x < wm_items_prefix(ds, r, n).len() && (#[trigger] wm_items_prefix(ds, r, n)[x]).key
                == GroupKeyV::Month(spec_month_floor(ds.dates@[dd].full_date)),
    decreases n,
{
    if dd == n - 1 {
        let s = wm_items_prefix(ds, r, n);
        assert(s[s.len() - 1].key == GroupKeyV::Month(spec_month_floor(ds.dates@[dd].full_date)));
    } else {
        lemma_wm_in_items(ds, r, n - 1, dd);
        let x = choose|x: int|
            0 <= x < wm_items_prefix(ds, r, n - 1).len() && (#[trigger] wm_items_prefix(
                ds,
                r,
                n - 1,
            )[x]).key == GroupKeyV::Month(spec_month_floor(ds.dates@[dd].full_date));
        assert(wm_items_prefix(ds, r, n)[x] == wm_items_prefix(ds, r, n - 1)[x]);
    }
}

/// Index of the window trip accumulator holding the given key, if any.
fn find_wt(accs: &Vec<GroupAcc>, key: &GroupKey) -> (r: Option<usize>)
    ensures
        match r {
            Some(x) => x < accs@.len() && key_view(accs@[x as int].key) == key_view(*key),
            None => forall|w: int|
                0 <= w < accs@.len() ==> key_view((#[trigger] accs@[w]).key) != key_view(*key),
        },
{
    let mut w: usize = 0;
    while w < accs.len()
        invariant
            w <= accs@.len(),
            forall|m: int| 0 <= m < w ==> key_view((#[trigger] accs@[m]).key) != key_view(*key),
        decreases accs@.len() - w,
    {
        if key_eq(&accs[w].key, key) {
            return Some(w);
        }
        w += 1;
    }
    None
}

/// The KPI trend values of the window: total trips, average trips per month
/// of the window (zero when the window saw no trips), the busiest window
/// month's trip count, and the exact average total amount — each as a
/// current value with zero placeholders for the previous period and the
/// trend.
pub fn kpi_trends(ds: &Dataset, r: &MonthRange) -> (out: KpiTrendData)
    requires
        r.wf(),
    ensures
        ({
            let nw = wt_items_prefix(*ds, *r, ds.trips@.len() as int).len();
            &&& out.total_trips.current == (Frac { num: nw as i128, den: 1 })
            &&& out.avg_trips_per_period.current == (if nw > 0 {
                Frac { num: nw as i128, den: r.spec_periods() as u64 }
            } else {
                Frac::spec_zero()
            })
            &&& wm_items_prefix(*ds, *r, ds.dates@.len() as int).len() == 0
                ==> out.max_trips_per_period.current == Frac::spec_zero()
            &&& wm_items_prefix(*ds, *r, ds.dates@.len() as int).len() > 0 ==> {
                &&& exists|mo: Date|
                    is_window_month(*ds, *r, mo) && out.max_trips_per_period.current == (Frac {
                        num: #[trigger] month_count(*ds, *r, mo) as i128,
                        den: 1,
                    })
                &&& forall|mo: Date|
                    is_window_month(*ds, *r, mo) ==> #[trigger] month_count(*ds, *r, mo)
                        <= out.max_trips_per_period.current.num
            }
            &&& out.avg_amount_overall.current == avg_frac(
                win_sum(*ds, *r, ds.trips@.len() as int),
                win_cnt(*ds, *r, ds.trips@.len() as int),
            )
            &&& out.total_trips.previous == Frac::spec_zero()
            &&& out.total_trips.trend == Frac::spec_zero()
            &&& out.avg_trips_per_period.previous == Frac::spec_zero()
            &&& out.avg_trips_per_period.trend == Frac::spec_zero()
            &&& out.max_trips_per_period.previous == Frac::spec_zero()
            &&& out.max_trips_per_period.trend == Frac::spec_zero()
            &&& out.avg_amount_overall.previous == Frac::spec_zero()
            &&& out.avg_amount_overall.trend == Frac::spec_zero()
        }),
{
    let wt = wt_build(ds, r);
    let total: u64 = wt.0.len() as u64;
    let sum = wt.1;
    let cnt = wt.2;
    proof {
        assert(view_items(wt.0@).len() == wt.0@.len());
    }
    let periods = r.periods();
    let avg_trips: Frac = if total > 0 {
        proof {
            assert(r.spec_periods() >= 1);
        }
        Frac { num: total as i128, den: periods }
    } else {
        Frac::zero()
    };
    let peak = peak_month_count(ds, r);
    proof {
        if wm_items_prefix(*ds, *r, ds.dates@.len() as int).len() > 0 {
            let mo = choose|mo: Date|
                is_window_month(*ds, *r, mo) && peak == #[trigger] month_count(*ds, *r, mo);
            let wtv = wt_items_prefix(*ds, *r, ds.trips@.len() as int);
            lemma_gv_count_bounds(wtv, GroupKeyV::Month(mo), wtv.len() as int);
            assert(peak as i128 == month_count(*ds, *r, mo) as i128);
        }
    }
    KpiTrendData {
        total_trips: trend_of(Frac { num: total as i128, den: 1 }),
        avg_trips_per_period: trend_of(avg_trips),
        max_trips_per_period: trend_of(Frac { num: peak as i128, den: 1 }),
        avg_amount_overall: trend_of(make_avg(sum, cnt)),
    }
}

/// The window the dashboard asks about by default: the last quarter of 2024.
pub fn default_window() -> (r: MonthRange)
    ensures
        r.wf(),
        r == (MonthRange { start_year: 2024, start_month: 10, end_year: 2024, end_month: 12 }),
{
    MonthRange { start_year: 2024, start_month: 10, end_year: 2024, end_month: 12 }
}

} // verus!
