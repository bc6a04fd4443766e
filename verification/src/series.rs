//! Date-keyed time series: trip volume by calendar day and the financial
//! breakdown by calendar month. Both series right-join from the date
//! dimension: every day (or month) present in the dimension yields a row,
//! with zero counts and zero averages when no trip maps to it. Trips whose
//! pickup date key does not resolve to a dimension row are dropped. Rows are
//! ordered chronologically ascending.
use vstd::prelude::*;
use crate::data::{Dataset, TripFact, Date, DateDim, date_le, spec_month_floor, find_date,
    lookup_date};
use crate::frac::{Frac, avg_frac, make_avg};
use crate::order::{SortKey, sort_by_key, sorted_by_key};
use crate::seqsum::{lemma_all_preserved, lemma_exists_preserved, lemma_distinct_preserved};
use crate::group::{GroupKey, GroupKeyV, GroupItem, GroupAcc, ItemV, view_item, view_items,
    key_view, key_eq, items_wf, group_rows, group_state_ok, acc_ok, acc_bounded, gv_count, gv_sum,
    gv_cnt, lemma_g_gv, lemma_gv_zero};

verus! {

/// The calendar day a trip's pickup maps to, when its date key resolves.
pub open spec fn trip_day(ds: Dataset, t: TripFact) -> Option<Date> {
    match t.pickup_date_key {
        Some(k) => match find_date(ds.dates@, k) {
            Some(row) => Some(row.full_date),
            None => None,
        },
        None => None,
    }
}

/// The volume items of the first `n` trips: trips with a resolved pickup
/// day, keyed by it, measuring total amount, tip amount, trip distance and
/// duration.
pub open spec fn vol_items_prefix(ds: Dataset, n: int) -> Seq<ItemV>
    decreases n,
{
    if n <= 0 {
        Seq::empty()
    } else {
        let rest = vol_items_prefix(ds, n - 1);
        let t = ds.trips@[n - 1];
        match trip_day(ds, t) {
            Some(d) => rest.push(
                ItemV {
                    key: GroupKeyV::Day(d),
                    measures: seq![
                        t.total_amount,
                        t.tip_amount,
                        t.trip_distance,
                        t.duration_seconds,
                    ],
                },
            ),
            None => rest,
        }
    }
}

/// The day items of the first `n` date-dimension rows: one per row, keyed by
/// its calendar day.
pub open spec fn day_items_prefix(ds: Dataset, n: int) -> Seq<ItemV>
    decreases n,
{
    if n <= 0 {
        Seq::empty()
    } else {
        day_items_prefix(ds, n - 1).push(
            ItemV { key: GroupKeyV::Day(ds.dates@[n - 1].full_date), measures: Seq::empty() },
        )
    }
}

/// Shape and origin of the day items.
pub proof fn lemma_day_items_index(ds: Dataset, n: int, j: int)
    requires
        0 <= j < n,
    ensures
        day_items_prefix(ds, n).len() == n,
        day_items_prefix(ds, n)[j] == (ItemV {
            key: GroupKeyV::Day(ds.dates@[j].full_date),
            measures: Seq::<Option<i64>>::empty(),
        }),
    decreases n,
{
    if j < n - 1 {
        lemma_day_items_index(ds, n - 1, j);
    } else {
        if n - 1 > 0 {
            lemma_day_items_index(ds, n - 1, 0);
        } else {
            assert(day_items_prefix(ds, 0) =~= Seq::<ItemV>::empty());
        }
    }
}

/// One row of the trip-volume series.
pub struct AggregatedTripStats {
    pub date: Date,
    pub trip_count: u64,
    pub avg_total_amount: Frac,
    pub avg_tip_amount: Frac,
    pub avg_trip_distance: Frac,
    pub avg_trip_duration_seconds: Frac,
}

impl SortKey for AggregatedTripStats {
    open spec fn le_spec(self, other: AggregatedTripStats) -> bool {
        date_le(self.date, other.date)
    }

    proof fn lemma_total(a: AggregatedTripStats, b: AggregatedTripStats) {
    }

    proof fn lemma_trans(a: AggregatedTripStats, b: AggregatedTripStats, c: AggregatedTripStats) {
    }

    fn le(&self, other: &AggregatedTripStats) -> (r: bool) {
        self.date.le(&other.date)
    }
}

/// The row reports its day's aggregates over all volume items exactly.
pub open spec fn vol_row_ok(itv: Seq<ItemV>, row: AggregatedTripStats) -> bool {
    let k = GroupKeyV::Day(row.date);
    let n = itv.len() as int;
    &&& row.trip_count == gv_count(itv, k, n)
    &&& row.avg_total_amount == avg_frac(gv_sum(itv, k, 0, n), gv_cnt(itv, k, 0, n))
    &&& row.avg_tip_amount == avg_frac(gv_sum(itv, k, 1, n), gv_cnt(itv, k, 1, n))
    &&& row.avg_trip_distance == avg_frac(gv_sum(itv, k, 2, n), gv_cnt(itv, k, 2, n))
    &&& row.avg_trip_duration_seconds == avg_frac(gv_sum(itv, k, 3, n), gv_cnt(itv, k, 3, n))
}

/// Build the volume items.
fn vol_build(ds: &Dataset) -> (items: Vec<GroupItem>)
    ensures
        view_items(items@) == vol_items_prefix(*ds, ds.trips@.len() as int),
        items_wf(items@, 4),
{
    let mut items: Vec<GroupItem> = Vec::new();
    let mut i: usize = 0;
    proof {
        assert(view_items(items@) =~= vol_items_prefix(*ds, 0));
    }
    while i < ds.trips.len()
        invariant
            i <= ds.trips@.len(),
            items_wf(items@, 4),
            view_items(items@) == vol_items_prefix(*ds, i as int),
        decreases ds.trips@.len() - i,
    {
        let t = &ds.trips[i];
        match t.pickup_date_key {
            Some(k) => match lookup_date(&ds.dates, k) {
                Some(idx) => {
                    let d = ds.dates[idx].full_date;
                    let mut measures: Vec<Option<i64>> = Vec::new();
                    measures.push(t.total_amount);
                    measures.push(t.tip_amount);
                    measures.push(t.trip_distance);
                    measures.push(t.duration_seconds);
                    let g = GroupItem { key: GroupKey::Day(d), measures };
                    proof {
                        assert(g.measures@ =~= seq![
                            ds.trips@[i as int].total_amount,
                            ds.trips@[i as int].tip_amount,
                            ds.trips@[i as int].trip_distance,
                            ds.trips@[i as int].duration_seconds,
                        ]);
                        assert(view_item(g) == vol_items_prefix(*ds, i as int + 1).last());
                        assert(view_items(items@.push(g)) =~= view_items(items@).push(
                            view_item(g),
                        ));
                        assert(view_items(items@.push(g)) =~= vol_items_prefix(
                            *ds,
                            i as int + 1,
                        ));
                    }
                    items.push(g);
                },
                None => {},
            },
            None => {},
        }
        i += 1;
    }
    items
}

/// Build the day items, one per date-dimension row.
fn day_build(ds: &Dataset) -> (items: Vec<GroupItem>)
    ensures
        view_items(items@) == day_items_prefix(*ds, ds.dates@.len() as int),
        items_wf(items@, 0),
        items@.len() == ds.dates@.len(),
{
    let mut items: Vec<GroupItem> = Vec::new();
    let mut i: usize = 0;
    proof {
        assert(view_items(items@) =~= day_items_prefix(*ds, 0));
    }
    while i < ds.dates.len()
        invariant
            i <= ds.dates@.len(),
            items@.len() == i,
            items_wf(items@, 0),
            view_items(items@) == day_items_prefix(*ds, i as int),
        decreases ds.dates@.len() - i,
    {
        let measures: Vec<Option<i64>> = Vec::new();
        let g = GroupItem { key: GroupKey::Day(ds.dates[i].full_date), measures };
        proof {
            assert(g.measures@ =~= Seq::<Option<i64>>::empty());
            assert(view_item(g) == day_items_prefix(*ds, i as int + 1).last());
            assert(view_items(items@.push(g)) =~= view_items(items@).push(view_item(g)));
            assert(view_items(items@.push(g)) =~= day_items_prefix(*ds, i as int + 1));
        }
        items.push(g);
        i += 1;
    }
    items
}

/// The day inside a day-shaped group key.
fn day_of_key(k: &GroupKey) -> (r: Date)
    requires
        key_view(*k) is Day,
    ensures
        GroupKeyV::Day(r) == key_view(*k),
{
    match k {
        GroupKey::Day(d) => *d,
        _ => {
            proof {
                assert(false);
            }
            Date { year: 0, month: 1, day: 1 }
        },
    }
}

/// Index of the trip accumulator holding the given key, if any.
fn find_acc(accs: &Vec<GroupAcc>, key: &GroupKey) -> (r: Option<usize>)
    ensures
        match r {
            Some(x) => x < accs@.len() && key_view(accs@[x as int].key) == key_view(*key),
            None => forall|w: int|
                0 <= w < accs@.len() ==> key_view((#[trigger] accs@[w]).key) != key_view(*key),
        },
{
    let mut w: usize = 0;
    while w < accs.len()
        invariant
            w <= accs@.len(),
            forall|m: int| 0 <= m < w ==> key_view((#[trigger] accs@[m]).key) != key_view(*key),
        decreases accs@.len() - w,
    {
        if key_eq(&accs[w].key, key) {
            return Some(w);
        }
        w += 1;
    }
    None
}

/// The unsorted trip-volume rows: one per distinct day in the date
/// dimension, exact even when the day has no trips.
#[verifier::rlimit(100)]
fn vol_rows(ds: &Dataset) -> (r: Vec<AggregatedTripStats>)
    ensures
        ({
            let itv = vol_items_prefix(*ds, ds.trips@.len() as int);
            &&& forall|ri: int| 0 <= ri < r@.len() ==> vol_row_ok(itv, #[trigger] r@[ri])
            &&& forall|a: int, b: int|
                0 <= a < b < r@.len() ==> (#[trigger] r@[a]).date != (#[trigger] r@[b]).date
            &&& forall|dd: int|
                0 <= dd < ds.dates@.len() ==> exists|ri: int|
                    0 <= ri < r@.len() && (#[trigger] r@[ri]).date == (
                    #[trigger] ds.dates@[dd]).full_date
            &&& forall|ri: int|
                0 <= ri < r@.len() ==> exists|dd: int|
                    0 <= dd < ds.dates@.len() && (#[trigger] ds.dates@[dd]).full_date == (
                    #[trigger] r@[ri]).date
        }),
{
    let ghost itv = vol_items_prefix(*ds, ds.trips@.len() as int);
    let day_items = day_build(ds);
    let day_accs = group_rows(&day_items, 0);
    let trip_items = vol_build(ds);
    let ghost nv = trip_items@.len() as int;
    let trip_accs = group_rows(&trip_items, 4);
    let ghost nd = day_items@.len() as int;
    let mut out: Vec<AggregatedTripStats> = Vec::new();
    let mut k: usize = 0;
    while k < day_accs.len()
        invariant
            k <= day_accs@.len(),
            out@.len() == k,
            itv == vol_items_prefix(*ds, ds.trips@.len() as int),
            itv == view_items(trip_items@),
            nv == trip_items@.len() as int,
            nd == day_items@.len() as int,
            nd == ds.dates@.len() as int,
            view_items(day_items@) == day_items_prefix(*ds, nd),
            group_state_ok(day_items@, day_accs@, 0, nd),
            group_state_ok(trip_items@, trip_accs@, 4, nv),
            forall|w: int| 0 <= w < k ==> vol_row_ok(itv, #[trigger] out@[w]),
            forall|w: int|
                0 <= w < k ==> GroupKeyV::Day((#[trigger] out@[w]).date) == key_view(
                    day_accs@[w].key,
                ),
        decreases day_accs@.len() - k,
    {
        let da = &day_accs[k];
        proof {
            assert(acc_ok(day_items@, day_accs@[k as int], 0, nd));
            let w0 = choose|w0: int|
                0 <= w0 < nd && key_view((#[trigger] day_items@[w0]).key) == key_view(
                    day_accs@[k as int].key,
                );
            assert(view_items(day_items@)[w0] == view_item(day_items@[w0]));
            lemma_day_items_index(*ds, nd, w0);
            assert(key_view(day_accs@[k as int].key) is Day);
        }
        let d = day_of_key(&da.key);
        let row: AggregatedTripStats = match find_acc(&trip_accs, &da.key) {
            Some(idx) => {
                let ta = &trip_accs[idx];
                proof {
                    assert(acc_ok(trip_items@, trip_accs@[idx as int], 4, nv));
                    assert(acc_bounded(trip_accs@[idx as int], 4, nv));
                    lemma_g_gv(trip_items@, key_view(ta.key), 0, nv);
                    lemma_g_gv(trip_items@, key_view(ta.key), 1, nv);
                    lemma_g_gv(trip_items@, key_view(ta.key), 2, nv);
                    lemma_g_gv(trip_items@, key_view(ta.key), 3, nv);
                }
                AggregatedTripStats {
                    date: d,
                    trip_count: ta.count,
                    avg_total_amount: make_avg(ta.sums[0], ta.cnts[0]),
                    avg_tip_amount: make_avg(ta.sums[1], ta.cnts[1]),
                    avg_trip_distance: make_avg(ta.sums[2], ta.cnts[2]),
                    avg_trip_duration_seconds: make_avg(ta.sums[3], ta.cnts[3]),
                }
            },
            None => {
                proof {
                    assert forall|j: int|
                        0 <= j < nv implies (#[trigger] itv[j]).key != GroupKeyV::Day(d) by {
                        if itv[j].key == GroupKeyV::Day(d) {
                            assert(itv[j] == view_item(trip_items@[j]));
                            let w = choose|w: int|
                                0 <= w < trip_accs@.len() && key_view(
                                    (#[trigger] trip_accs@[w]).key,
                                ) == key_view(trip_items@[j].key);
                        }
                    }
                    lemma_gv_zero(itv, GroupKeyV::Day(d), 0, nv);
                    lemma_gv_zero(itv, GroupKeyV::Day(d), 1, nv);
                    lemma_gv_zero(itv, GroupKeyV::Day(d), 2, nv);
                    lemma_gv_zero(itv, GroupKeyV::Day(d), 3, nv);
                }
                AggregatedTripStats {
                    date: d,
                    trip_count: 0,
                    avg_total_amount: Frac::zero(),
                    avg_tip_amount: Frac::zero(),
                    avg_trip_distance: Frac::zero(),
                    avg_trip_duration_seconds: Frac::zero(),
                }
            },
        };
        out.push(row);
        k += 1;
    }
    proof {
        assert forall|a: int, b: int|
            0 <= a < b < out@.len() implies (#[trigger] out@[a]).date != (
        #[trigger] out@[b]).date by {
            assert(key_view(day_accs@[a].key) != key_view(day_accs@[b].key));
        }
        assert forall|dd: int|
            0 <= dd < ds.dates@.len() implies exists|ri: int|
            0 <= ri < out@.len() && (#[trigger] out@[ri]).date == (
        #[trigger] ds.dates@[dd]).full_date by {
            lemma_day_items_index(*ds, nd, dd);
            assert(view_items(day_items@)[dd] == view_item(day_items@[dd]));
            assert(key_view(day_items@[dd].key) == GroupKeyV::Day(ds.dates@[dd].full_date));
            let w = choose|w: int|
                0 <= w < day_accs@.len() && key_view((#[trigger] day_accs@[w]).key) == key_view(
                    day_items@[dd].key,
                );
            assert(out@[w].date == ds.dates@[dd].full_date);
        }
        assert forall|ri: int|
            0 <= ri < out@.len() implies exists|dd: int|
            0 <= dd < ds.dates@.len() && (#[trigger] ds.dates@[dd]).full_date == (
        #[trigger] out@[ri]).date by {
            assert(acc_ok(day_items@, day_accs@[ri], 0, nd));
            let w0 = choose|w0: int|
                0 <= w0 < nd && key_view((#[trigger] day_items@[w0]).key) == key_view(
                    day_accs@[ri].key,
                );
            lemma_day_items_index(*ds, nd, w0);
            assert(ds.dates@[w0].full_date == out@[ri].date);
        }
    }
    out
}

/// The trip-volume series: one row per distinct calendar day in the date
/// dimension, chronologically ascending. Each row's count and averages are
/// exact over the trips that resolve to that day; a day with no trips
/// reports zero everywhere.
pub fn trip_volume(ds: &Dataset) -> (r: Vec<AggregatedTripStats>)
    ensures
        ({
            let itv = vol_items_prefix(*ds, ds.trips@.len() as int);
            &&& forall|ri: int| 0 <= ri < r@.len() ==> vol_row_ok(itv, #[trigger] r@[ri])
            &&& forall|a: int, b: int|
                0 <= a < b < r@.len() ==> (#[trigger] r@[a]).date != (#[trigger] r@[b]).date
            &&& forall|dd: int|
                0 <= dd < ds.dates@.len() ==> exists|ri: int|
                    0 <= ri < r@.len() && (#[trigger] r@[ri]).date == (
                    #[trigger] ds.dates@[dd]).full_date
            &&& forall|ri: int|
                0 <= ri < r@.len() ==> exists|dd: int|
                    0 <= dd < ds.dates@.len() && (#[trigger] ds.dates@[dd]).full_date == (
                    #[trigger] r@[ri]).date
            &&& forall|a: int, b: int|
                0 <= a < b < r@.len() ==> date_le(
                    (#[trigger] r@[a]).date,
                    (#[trigger] r@[b]).date,
                )
        }),
{
    let ghost itv = vol_items_prefix(*ds, ds.trips@.len() as int);
    let mut out = vol_rows(ds);
    let ghost presort = out@;
    sort_by_key(&mut out);
    proof {
        lemma_all_preserved(presort, out@, |row: AggregatedTripStats| vol_row_ok(itv, row));
        lemma_distinct_preserved(presort, out@, |row: AggregatedTripStats| row.date);
        assert forall|dd: int|
            0 <= dd < ds.dates@.len() implies exists|ri: int|
            0 <= ri < out@.len() && (#[trigger] out@[ri]).date == (
        #[trigger] ds.dates@[dd]).full_date by {
            let d = ds.dates@[dd].full_date;
            let p = |row: AggregatedTripStats| row.date == d;
            let w0 = choose|w0: int|
                0 <= w0 < presort.len() && (#[trigger] presort[w0]).date == d;
            assert(p(presort[w0]));
            lemma_exists_preserved(presort, out@, p);
            let ri = choose|ri: int| 0 <= ri < out@.len() && p(#[trigger] out@[ri]);
            assert(out@[ri].date == d);
        }
        lemma_all_preserved(
            presort,
            out@,
            |row: AggregatedTripStats|
                exists|dd: int|
                    0 <= dd < ds.dates@.len() && (#[trigger] ds.dates@[dd]).full_date == row.date,
        );
        assert forall|a: int, b: int|
            0 <= a < b < out@.len() implies date_le(
            (#[trigger] out@[a]).date,
            (#[trigger] out@[b]).date,
        ) by {
            assert(out@[a].le_spec(out@[b]));
        }
    }
    out
}

/// The calendar month a trip's pickup maps to, when its date key resolves.
pub open spec fn trip_month(ds: Dataset, t: TripFact) -> Option<Date> {
    match trip_day(ds, t) {
        Some(d) => Some(spec_month_floor(d)),
        None => None,
    }
}

/// The financial items of the first `n` trips: trips with a resolved pickup
/// month, keyed by it, measuring fare, tip, tolls, tax, surcharge, extra and
/// total amounts.
pub open spec fn fin_items_prefix(ds: Dataset, n: int) -> Seq<ItemV>
    decreases n,
{
    if n <= 0 {
        Seq::empty()
    } else {
        let rest = fin_items_prefix(ds, n - 1);
        let t = ds.trips@[n - 1];
        match trip_month(ds, t) {
            Some(d) => rest.push(
                ItemV {
                    key: GroupKeyV::Month(d),
                    measures: seq![
                        t.fare_amount,
                        t.tip_amount,
                        t.tolls_amount,
                        t.mta_tax,
                        t.improvement_surcharge,
                        t.extra,
                        t.total_amount,
                    ],
                },
            ),
            None => rest,
        }
    }
}

/// The month items of the first `n` date-dimension rows: one per row, keyed
/// by its calendar month.
pub open spec fn month_items_prefix(ds: Dataset, n: int) -> Seq<ItemV>
    decreases n,
{
    if n <= 0 {
        Seq::empty()
    } else {
        month_items_prefix(ds, n - 1).push(
            ItemV {
                key: GroupKeyV::Month(spec_month_floor(ds.dates@[n - 1].full_date)),
                measures: Seq::empty(),
            },
        )
    }
}

/// Shape and origin of the month items.
pub proof fn lemma_month_items_index(ds: Dataset, n: int, j: int)
    requires
        0 <= j < n,
    ensures
        month_items_prefix(ds, n).len() == n,
        month_items_prefix(ds, n)[j] == (ItemV {
            key: GroupKeyV::Month(spec_month_floor(ds.dates@[j].full_date)),
            measures: Seq::<Option<i64>>::empty(),
        }),
    decreases n,
{
    if j < n - 1 {
        lemma_month_items_index(ds, n - 1, j);
    } else {
        if n - 1 > 0 {
            lemma_month_items_index(ds, n - 1, 0);
        } else {
            assert(month_items_prefix(ds, 0) =~= Seq::<ItemV>::empty());
        }
    }
}

/// One row of the financial breakdown by month; `date` is the first day of
/// the month.
pub struct FinancialBreakdown {
    pub date: Date,
    pub avg_fare_amount: Frac,
    pub avg_tip_amount: Frac,
    pub avg_tolls_amount: Frac,
    pub avg_mta_tax: Frac,
    pub avg_improvement_surcharge: Frac,
    pub avg_extra: Frac,
    pub avg_total_amount: Frac,
}

impl SortKey for FinancialBreakdown {
    open spec fn le_spec(self, other: FinancialBreakdown) -> bool {
        date_le(self.date, other.date)
    }

    proof fn lemma_total(a: FinancialBreakdown, b: FinancialBreakdown) {
    }

    proof fn lemma_trans(a: FinancialBreakdown, b: FinancialBreakdown, c: FinancialBreakdown) {
    }

    fn le(&self, other: &FinancialBreakdown) -> (r: bool) {
        self.date.le(&other.date)
    }
}

/// The row reports its month's averages over all financial items exactly.
pub open spec fn fin_row_ok(itv: Seq<ItemV>, row: FinancialBreakdown) -> bool {
    let k = GroupKeyV::Month(row.date);
    let n = itv.len() as int;
    &&& row.avg_fare_amount == avg_frac(gv_sum(itv, k, 0, n), gv_cnt(itv, k, 0, n))
    &&& row.avg_tip_amount == avg_frac(gv_sum(itv, k, 1, n), gv_cnt(itv, k, 1, n))
    &&& row.avg_tolls_amount == avg_frac(gv_sum(itv, k, 2, n), gv_cnt(itv, k, 2, n))
    &&& row.avg_mta_tax == avg_frac(gv_sum(itv, k, 3, n), gv_cnt(itv, k, 3, n))
    &&& row.avg_improvement_surcharge == avg_frac(gv_sum(itv, k, 4, n), gv_cnt(itv, k, 4, n))
    &&& row.avg_extra == avg_frac(gv_sum(itv, k, 5, n), gv_cnt(itv, k, 5, n))
    &&& row.avg_total_amount == avg_frac(gv_sum(itv, k, 6, n), gv_cnt(itv, k, 6, n))
}

/// Build the financial items.
fn fin_build(ds: &Dataset) -> (items: Vec<GroupItem>)
    ensures
        view_items(items@) == fin_items_prefix(*ds, ds.trips@.len() as int),
        items_wf(items@, 7),
{
    let mut items: Vec<GroupItem> = Vec::new();
    let mut i: usize = 0;
    proof {
        assert(view_items(items@) =~= fin_items_prefix(*ds, 0));
    }
    while i < ds.trips.len()
        invariant
            i <= ds.trips@.len(),
            items_wf(items@, 7),
            view_items(items@) == fin_items_prefix(*ds, i as int),
        decreases ds.trips@.len() - i,
    {
        let t = &ds.trips[i];
        match t.pickup_date_key {
            Some(k) => match lookup_date(&ds.dates, k) {
                Some(idx) => {
                    let d = ds.dates[idx].full_date.month_floor();
                    let mut measures: Vec<Option<i64>> = Vec::new();
                    measures.push(t.fare_amount);
                    measures.push(t.tip_amount);
                    measures.push(t.tolls_amount);
                    measures.push(t.mta_tax);
                    measures.push(t.improvement_surcharge);
                    measures.push(t.extra);
                    measures.push(t.total_amount);
                    let g = GroupItem { key: GroupKey::Month(d), measures };
                    proof {
                        assert(g.measures@ =~= seq![
                            ds.trips@[i as int].fare_amount,
                            ds.trips@[i as int].tip_amount,
                            ds.trips@[i as int].tolls_amount,
                            ds.trips@[i as int].mta_tax,
                            ds.trips@[i as int].improvement_surcharge,
                            ds.trips@[i as int].extra,
                            ds.trips@[i as int].total_amount,
                        ]);
                        assert(view_item(g) == fin_items_prefix(*ds, i as int + 1).last());
                        assert(view_items(items@.push(g)) =~= view_items(items@).push(
                            view_item(g),
                        ));
                        assert(view_items(items@.push(g)) =~= fin_items_prefix(
                            *ds,
                            i as int + 1,
                        ));
                    }
                    items.push(g);
                },
                None => {},
            },
            None => {},
        }
        i += 1;
    }
    items
}

/// Build the month items, one per date-dimension row.
fn month_build(ds: &Dataset) -> (items: Vec<GroupItem>)
    ensures
        view_items(items@) == month_items_prefix(*ds, ds.dates@.len() as int),
        items_wf(items@, 0),
        items@.len() == ds.dates@.len(),
{
    let mut items: Vec<GroupItem> = Vec::new();
    let mut i: usize = 0;
    proof {
        assert(view_items(items@) =~= month_items_prefix(*ds, 0));
    }
    while i < ds.dates.len()
        invariant
            i <= ds.dates@.len(),
            items@.len() == i,
            items_wf(items@, 0),
            view_items(items@) == month_items_prefix(*ds, i as int),
        decreases ds.dates@.len() - i,
    {
        let measures: Vec<Option<i64>> = Vec::new();
        let g = GroupItem {
            key: GroupKey::Month(ds.dates[i].full_date.month_floor()),
            measures,
        };
        proof {
            assert(g.measures@ =~= Seq::<Option<i64>>::empty());
            assert(view_item(g) == month_items_prefix(*ds, i as int + 1).last());
            assert(view_items(items@.push(g)) =~= view_items(items@).push(view_item(g)));
            assert(view_items(items@.push(g)) =~= month_items_prefix(*ds, i as int + 1));
        }
        items.push(g);
        i += 1;
    }
    items
}

/// The month inside a month-shaped group key.
fn month_of_key(k: &GroupKey) -> (r: Date)
    requires
        key_view(*k) is Month,
    ensures
        GroupKeyV::Month(r) == key_view(*k),
{
    match k {
        GroupKey::Month(d) => *d,
        _ => {
            proof {
                assert(false);
            }
            Date { year: 0, month: 1, day: 1 }
        },
    }
}

/// The unsorted financial rows: one per distinct month in the date
/// dimension, exact even when the month has no trips.
#[verifier::rlimit(100)]
fn fin_rows(ds: &Dataset) -> (r: Vec<FinancialBreakdown>)
    ensures
        ({
            let itv = fin_items_prefix(*ds, ds.trips@.len() as int);
            &&& forall|ri: int| 0 <= ri < r@.len() ==> fin_row_ok(itv, #[trigger] r@[ri])
            &&& forall|a: int, b: int|
                0 <= a < b < r@.len() ==> (#[trigger] r@[a]).date != (#[trigger] r@[b]).date
            &&& forall|dd: int|
                0 <= dd < ds.dates@.len() ==> exists|ri: int|
                    0 <= ri < r@.len() && (#[trigger] r@[ri]).date == spec_month_floor(
                        (#[trigger] ds.dates@[dd]).full_date,
                    )
            &&& forall|ri: int|
                0 <= ri < r@.len() ==> exists|dd: int|
                    0 <= dd < ds.dates@.len() && spec_month_floor(
                        (#[trigger] ds.dates@[dd]).full_date,
                    ) == (#[trigger] r@[ri]).date
        }),
{
    let ghost itv = fin_items_prefix(*ds, ds.trips@.len() as int);
    let month_items = month_build(ds);
    let month_accs = group_rows(&month_items, 0);
    let trip_items = fin_build(ds);
    let ghost nv = trip_items@.len() as int;
    let trip_accs = group_rows(&trip_items, 7);
    let ghost nd = month_items@.len() as int;
    let mut out: Vec<FinancialBreakdown> = Vec::new();
    let mut k: usize = 0;
    while k < month_accs.len()
        invariant
            k <= month_accs@.len(),
            out@.len() == k,
            itv == fin_items_prefix(*ds, ds.trips@.len() as int),
            itv == view_items(trip_items@),
            nv == trip_items@.len() as int,
            nd == month_items@.len() as int,
            nd == ds.dates@.len() as int,
            view_items(month_items@) == month_items_prefix(*ds, nd),
            group_state_ok(month_items@, month_accs@, 0, nd),
            group_state_ok(trip_items@, trip_accs@, 7, nv),
            forall|w: int| 0 <= w < k ==> fin_row_ok(itv, #[trigger] out@[w]),
            forall|w: int|
                0 <= w < k ==> GroupKeyV::Month((#[trigger] out@[w]).date) == key_view(
                    month_accs@[w].key,
                ),
        decreases month_accs@.len() - k,
    {
        let da = &month_accs[k];
        proof {
            assert(acc_ok(month_items@, month_accs@[k as int], 0, nd));
            let w0 = choose|w0: int|
                0 <= w0 < nd && key_view((#[trigger] month_items@[w0]).key) == key_view(
                    month_accs@[k as int].key,
                );
            assert(view_items(month_items@)[w0] == view_item(month_items@[w0]));
            lemma_month_items_index(*ds, nd, w0);
            assert(key_view(month_accs@[k as int].key) is Month);
        }
        let d = month_of_key(&da.key);
        let row: FinancialBreakdown = match find_acc(&trip_accs, &da.key) {
            Some(idx) => {
                let ta = &trip_accs[idx];
                proof {
                    assert(acc_ok(trip_items@, trip_accs@[idx as int], 7, nv));
                    assert(acc_bounded(trip_accs@[idx as int], 7, nv));
                    lemma_g_gv(trip_items@, key_view(ta.key), 0, nv);
                    lemma_g_gv(trip_items@, key_view(ta.key), 1, nv);
                    lemma_g_gv(trip_items@, key_view(ta.key), 2, nv);
                    lemma_g_gv(trip_items@, key_view(ta.key), 3, nv);
                    lemma_g_gv(trip_items@, key_view(ta.key), 4, nv);
                    lemma_g_gv(trip_items@, key_view(ta.key), 5, nv);
                    lemma_g_gv(trip_items@, key_view(ta.key), 6, nv);
                }
                FinancialBreakdown {
                    date: d,
                    avg_fare_amount: make_avg(ta.sums[0], ta.cnts[0]),
                    avg_tip_amount: make_avg(ta.sums[1], ta.cnts[1]),
                    avg_tolls_amount: make_avg(ta.sums[2], ta.cnts[2]),
                    avg_mta_tax: make_avg(ta.sums[3], ta.cnts[3]),
                    avg_improvement_surcharge: make_avg(ta.sums[4], ta.cnts[4]),
                    avg_extra: make_avg(ta.sums[5], ta.cnts[5]),
                    avg_total_amount: make_avg(ta.sums[6], ta.cnts[6]),
                }
            },
            None => {
                proof {
                    assert forall|j: int|
                        0 <= j < nv implies (#[trigger] itv[j]).key != GroupKeyV::Month(d) by {
                        if itv[j].key == GroupKeyV::Month(d) {
                            assert(itv[j] == view_item(trip_items@[j]));
                            let w = choose|w: int|
                                0 <= w < trip_accs@.len() && key_view(
                                    (#[trigger] trip_accs@[w]).key,
                                ) == key_view(trip_items@[j].key);
                        }
                    }
                    lemma_gv_zero(itv, GroupKeyV::Month(d), 0, nv);
                    lemma_gv_zero(itv, GroupKeyV::Month(d), 1, nv);
                    lemma_gv_zero(itv, GroupKeyV::Month(d), 2, nv);
                    lemma_gv_zero(itv, GroupKeyV::Month(d), 3, nv);
                    lemma_gv_zero(itv, GroupKeyV::Month(d), 4, nv);
                    lemma_gv_zero(itv, GroupKeyV::Month(d), 5, nv);
                    lemma_gv_zero(itv, GroupKeyV::Month(d), 6, nv);
                }
                FinancialBreakdown {
                    date: d,
                    avg_fare_amount: Frac::zero(),
                    avg_tip_amount: Frac::zero(),
                    avg_tolls_amount: Frac::zero(),
                    avg_mta_tax: Frac::zero(),
                    avg_improvement_surcharge: Frac::zero(),
                    avg_extra: Frac::zero(),
                    avg_total_amount: Frac::zero(),
                }
            },
        };
        out.push(row);
        k += 1;
    }
    proof {
        assert forall|a: int, b: int|
            0 <= a < b < out@.len() implies (#[trigger] out@[a]).date != (
        #[trigger] out@[b]).date by {
            assert(key_view(month_accs@[a].key) != key_view(month_accs@[b].key));
        }
        assert forall|dd: int|
            0 <= dd < ds.dates@.len() implies exists|ri: int|
            0 <= ri < out@.len() && (#[trigger] out@[ri]).date == spec_month_floor(
            (#[trigger] ds.dates@[dd]).full_date,
        ) by {
            lemma_month_items_index(*ds, nd, dd);
            assert(view_items(month_items@)[dd] == view_item(month_items@[dd]));
            assert(key_view(month_items@[dd].key) == GroupKeyV::Month(
                spec_month_floor(ds.dates@[dd].full_date),
            ));
            let w = choose|w: int|
                0 <= w < month_accs@.len() && key_view((#[trigger] month_accs@[w]).key)
                    == key_view(month_items@[dd].key);
            assert(out@[w].date == spec_month_floor(ds.dates@[dd].full_date));
        }
        assert forall|ri: int|
            0 <= ri < out@.len() implies exists|dd: int|
            0 <= dd < ds.dates@.len() && spec_month_floor((#[trigger] ds.dates@[dd]).full_date)
                == (#[trigger] out@[ri]).date by {
            assert(acc_ok(month_items@, month_accs@[ri], 0, nd));
            let w0 = choose|w0: int|
                0 <= w0 < nd && key_view((#[trigger] month_items@[w0]).key) == key_view(
                    month_accs@[ri].key,
                );
            lemma_month_items_index(*ds, nd, w0);
            assert(spec_month_floor(ds.dates@[w0].full_date) == out@[ri].date);
        }
    }
    out
}

/// The financial breakdown by month: one row per distinct calendar month in
/// the date dimension, chronologically ascending. Each row's seven averages
/// are exact over the trips that resolve to that month; a month with no
/// trips reports zero everywhere.
pub fn financial_breakdown(ds: &Dataset) -> (r: Vec<FinancialBreakdown>)
    ensures
        ({
            let itv = fin_items_prefix(*ds, ds.trips@.len() as int);
            &&& forall|ri: int| 0 <= ri < r@.len() ==> fin_row_ok(itv, #[trigger] r@[ri])
            &&& forall|a: int, b: int|
                0 <= a < b < r@.len() ==> (#[trigger] r@[a]).date != (#[trigger] r@[b]).date
            &&& forall|dd: int|
                0 <= dd < ds.dates@.len() ==> exists|ri: int|
                    0 <= ri < r@.len() && (#[trigger] r@[ri]).date == spec_month_floor(
                        (#[trigger] ds.dates@[dd]).full_date,
                    )
            &&& forall|ri: int|
                0 <= ri < r@.len() ==> exists|dd: int|
                    0 <= dd < ds.dates@.len() && spec_month_floor(
                        (#[trigger] ds.dates@[dd]).full_date,
                    ) == (#[trigger] r@[ri]).date
            &&& forall|a: int, b: int|
                0 <= a < b < r@.len() ==> date_le(
                    (#[trigger] r@[a]).date,
                    (#[trigger] r@[b]).date,
                )
        }),
{
    let ghost itv = fin_items_prefix(*ds, ds.trips@.len() as int);
    let mut out = fin_rows(ds);
    let ghost presort = out@;
    sort_by_key(&mut out);
    proof {
        lemma_all_preserved(presort, out@, |row: FinancialBreakdown| fin_row_ok(itv, row));
        lemma_distinct_preserved(presort, out@, |row: FinancialBreakdown| row.date);
        assert forall|dd: int|
            0 <= dd < ds.dates@.len() implies exists|ri: int|
            0 <= ri < out@.len() && (#[trigger] out@[ri]).date == spec_month_floor(
            (#[trigger] ds.dates@[dd]).full_date,
        ) by {
            let d = spec_month_floor(ds.dates@[dd].full_date);
            let p = |row: FinancialBreakdown| row.date == d;
            let w0 = choose|w0: int|
                0 <= w0 < presort.len() && (#[trigger] presort[w0]).date == d;
            assert(p(presort[w0]));
            lemma_exists_preserved(presort, out@, p);
            let ri = choose|ri: int| 0 <= ri < out@.len() && p(#[trigger] out@[ri]);
            assert(out@[ri].date == d);
        }
        lemma_all_preserved(
            presort,
            out@,
            |row: FinancialBreakdown|
                exists|dd: int|
                    0 <= dd < ds.dates@.len() && spec_month_floor(
                        (#[trigger] ds.dates@[dd]).full_date,
                    ) == row.date,
        );
        assert forall|a: int, b: int|
            0 <= a < b < out@.len() implies date_le(
            (#[trigger] out@[a]).date,
            (#[trigger] out@[b]).date,
        ) by {
            assert(out@[a].le_spec(out@[b]));
        }
    }
    out
}

} // verus!
