//! Borough-to-borough flows: trips grouped by (pickup borough, dropoff
//! borough). A trip qualifies only when both boroughs are known: present,
//! non-blank and not the `"Unknown"` placeholder. Rows are ordered by trip
//! count descending (ties keep first-seen order) and capped at the top 100
//! flows.
use vstd::prelude::*;
use vstd::string::StringExecFns;
use crate::data::{Dataset, TripFact, find_location, view_opt_str, clone_opt_string,
    lookup_location};
use crate::frac::{Frac, avg_frac, make_avg};
use crate::order::{SortKey, sort_by_key, sorted_by_key};
use crate::seqsum::{seq_sum_by, lemma_seq_sum_by_push};
use crate::breakdown::{CatRow, lemma_cat_transfer, lemma_rows_complete};
use crate::group::{GroupKey, GroupKeyV, GroupItem, GroupAcc, ItemV, view_item, view_items,
    key_view, items_wf, group_rows, group_state_ok, acc_ok, acc_bounded, acc_count_f, gv_count,
    gv_sum, gv_cnt, lemma_g_gv};

verus! {

/// The borough of the location row a nullable key points at, if any.
pub open spec fn borough_of(ds: Dataset, k: Option<i32>) -> Option<Seq<char>> {
    match k {
        Some(kk) => match find_location(ds.locations@, kk) {
            Some(row) => view_opt_str(row.borough),
            None => None,
        },
        None => None,
    }
}

/// A borough name that names a real borough: non-blank and not the
/// `"Unknown"` placeholder.
pub open spec fn valid_borough(b: Seq<char>) -> bool {
    b.len() > 0 && b != "Unknown"@
}

/// The trip enters the borough-flow breakdown: both boroughs are known.
pub open spec fn bf_qualifies(ds: Dataset, t: TripFact) -> bool {
    &&& borough_of(ds, t.pickup_location_key) matches Some(pb) && valid_borough(pb)
    &&& borough_of(ds, t.dropoff_location_key) matches Some(db) && valid_borough(db)
}

/// The borough-flow items of the first `n` trips: the qualifying trips,
/// keyed by the borough pair, with fare amount as the single measure.
pub open spec fn bf_items_prefix(ds: Dataset, n: int) -> Seq<ItemV>
    decreases n,
{
    if n <= 0 {
        Seq::empty()
    } else {
        let rest = bf_items_prefix(ds, n - 1);
        let t = ds.trips@[n - 1];
        if bf_qualifies(ds, t) {
            rest.push(
                ItemV {
                    key: GroupKeyV::Boroughs(
                        borough_of(ds, t.pickup_location_key)->0,
                        borough_of(ds, t.dropoff_location_key)->0,
                    ),
                    measures: seq![t.fare_amount],
                },
            )
        } else {
            rest
        }
    }
}

/// Every borough-flow item key is a pair of valid borough names.
pub proof fn lemma_bf_items_keys(ds: Dataset, n: int)
    requires
        n >= 0,
    ensures
        bf_items_prefix(ds, n).len() <= n,
        forall|x: int|
            0 <= x < bf_items_prefix(ds, n).len() ==> {
                let k = (#[trigger] bf_items_prefix(ds, n)[x]).key;
                k is Boroughs && valid_borough(k->Boroughs_0) && valid_borough(k->Boroughs_1)
            },
    decreases n,
{
    if n > 0 {
        lemma_bf_items_keys(ds, n - 1);
        assert forall|x: int|
            0 <= x < bf_items_prefix(ds, n).len() implies {
            let k = (#[trigger] bf_items_prefix(ds, n)[x]).key;
            k is Boroughs && valid_borough(k->Boroughs_0) && valid_borough(k->Boroughs_1)
        } by {
            if x < bf_items_prefix(ds, n - 1).len() {
                assert(bf_items_prefix(ds, n)[x] == bf_items_prefix(ds, n - 1)[x]);
            }
        }
    } else {
        assert(bf_items_prefix(ds, 0) =~= Seq::<ItemV>::empty());
    }
}

/// One row of the borough-flow breakdown.
pub struct BoroughFlowStats {
    pub pickup_borough: String,
    pub dropoff_borough: String,
    pub trip_count: u64,
    pub avg_fare_amount: Frac,
}

impl CatRow for BoroughFlowStats {
    open spec fn rkey(self) -> GroupKeyV {
        GroupKeyV::Boroughs(self.pickup_borough@, self.dropoff_borough@)
    }

    open spec fn rok(self, itv: Seq<ItemV>, n: int) -> bool {
        &&& self.trip_count == gv_count(itv, self.rkey(), n)
        &&& self.avg_fare_amount == avg_frac(
            gv_sum(itv, self.rkey(), 0, n),
            gv_cnt(itv, self.rkey(), 0, n),
        )
        &&& exists|j: int| 0 <= j < n && (#[trigger] itv[j]).key == self.rkey()
    }

    open spec fn rcount(self) -> int {
        self.trip_count as int
    }
}

impl SortKey for BoroughFlowStats {
    open spec fn le_spec(self, other: BoroughFlowStats) -> bool {
        self.trip_count >= other.trip_count
    }

    proof fn lemma_total(a: BoroughFlowStats, b: BoroughFlowStats) {
    }

    proof fn lemma_trans(a: BoroughFlowStats, b: BoroughFlowStats, c: BoroughFlowStats) {
    }

    fn le(&self, other: &BoroughFlowStats) -> (r: bool) {
        self.trip_count >= other.trip_count
    }
}

/// Contribution of an output row to the breakdown's total trip count.
pub open spec fn bf_row_count_f() -> spec_fn(BoroughFlowStats) -> int {
    |row: BoroughFlowStats| row.trip_count as int
}

/// The resolved borough of a nullable location key, if the location is known.
fn lookup_borough(ds: &Dataset, k: Option<i32>) -> (r: Option<String>)
    ensures
        view_opt_str(r) == borough_of(*ds, k),
{
    match k {
        Some(kk) => match lookup_location(&ds.locations, kk) {
            Some(idx) => clone_opt_string(&ds.locations[idx].borough),
            None => None,
        },
        None => None,
    }
}

/// Whether a borough name is non-blank and not the `"Unknown"` placeholder.
fn is_valid_borough(b: &String) -> (r: bool)
    ensures
        r == valid_borough(b@),
{
    let unk: String = "Unknown".to_owned();
    !b.as_str().is_empty() && !b.eq(&unk)
}

/// The borough pair inside a borough-flow group key.
fn boroughs_of_key(k: &GroupKey) -> (r: (String, String))
    requires
        key_view(*k) is Boroughs,
    ensures
        GroupKeyV::Boroughs(r.0@, r.1@) == key_view(*k),
{
    match k {
        GroupKey::Boroughs(p, q) => (p.clone(), q.clone()),
        _ => {
            proof {
                assert(false);
            }
            ("".to_owned(), "".to_owned())
        },
    }
}

/// Build the borough-flow items.
fn bf_build(ds: &Dataset) -> (items: Vec<GroupItem>)
    ensures
        view_items(items@) == bf_items_prefix(*ds, ds.trips@.len() as int),
        items_wf(items@, 1),
{
    let mut items: Vec<GroupItem> = Vec::new();
    let mut i: usize = 0;
    proof {
        assert(view_items(items@) =~= bf_items_prefix(*ds, 0));
    }
    while i < ds.trips.len()
        invariant
            i <= ds.trips@.len(),
            items_wf(items@, 1),
            view_items(items@) == bf_items_prefix(*ds, i as int),
        decreases ds.trips@.len() - i,
    {
        let t = &ds.trips[i];
        let pb = lookup_borough(ds, t.pickup_location_key);
        let db = lookup_borough(ds, t.dropoff_location_key);
        match (pb, db) {
            (Some(p), Some(q)) => {
                if is_valid_borough(&p) && is_valid_borough(&q) {
                    let mut measures: Vec<Option<i64>> = Vec::new();
                    measures.push(t.fare_amount);
                    let g = GroupItem { key: GroupKey::Boroughs(p, q), measures };
                    proof {
                        assert(bf_qualifies(*ds, ds.trips@[i as int]));
                        assert(g.measures@ =~= seq![ds.trips@[i as int].fare_amount]);
                        assert(view_item(g) == bf_items_prefix(*ds, i as int + 1).last());
                        assert(view_items(items@.push(g)) =~= view_items(items@).push(
                            view_item(g),
                        ));
                        assert(view_items(items@.push(g)) =~= bf_items_prefix(*ds, i as int + 1));
                    }
                    items.push(g);
                } else {
                    proof {
                        assert(!bf_qualifies(*ds, ds.trips@[i as int]));
                    }
                }
            },
            _ => {
                proof {
                    assert(!bf_qualifies(*ds, ds.trips@[i as int]));
                }
            },
        }
        i += 1;
    }
    items
}

/// The unsorted borough-flow rows.
#[verifier::rlimit(100)]
fn bf_rows(ds: &Dataset) -> (r: Vec<BoroughFlowStats>)
    ensures
        ({
            let itv = bf_items_prefix(*ds, ds.trips@.len() as int);
            &&& forall|ri: int| 0 <= ri < r@.len() ==> (#[trigger] r@[ri]).rok(itv, itv.len() as int)
            &&& forall|a: int, b: int|
                0 <= a < b < r@.len() ==> (#[trigger] r@[a]).rkey() != (#[trigger] r@[b]).rkey()
            &&& forall|j: int|
                0 <= j < itv.len() ==> exists|ri: int|
                    0 <= ri < r@.len() && (#[trigger] r@[ri]).rkey() == (#[trigger] itv[j]).key
            &&& seq_sum_by(r@, bf_row_count_f()) == itv.len()
        }),
{
    let items = bf_build(ds);
    let ghost itv = bf_items_prefix(*ds, ds.trips@.len() as int);
    let ghost n = items@.len() as int;
    let accs = group_rows(&items, 1);
    let mut out: Vec<BoroughFlowStats> = Vec::new();
    let mut k: usize = 0;
    proof {
        assert(accs@.subrange(0, 0) =~= Seq::<GroupAcc>::empty());
    }
    while k < accs.len()
        invariant
            k <= accs@.len(),
            out@.len() == k,
            itv == view_items(items@),
            itv == bf_items_prefix(*ds, ds.trips@.len() as int),
            n == items@.len() as int,
            group_state_ok(items@, accs@, 1, n),
            forall|w: int| 0 <= w < k ==> (#[trigger] out@[w]).rok(itv, n),
            forall|w: int| 0 <= w < k ==> (#[trigger] out@[w]).rkey() == key_view(accs@[w].key),
            forall|w: int| 0 <= w < k ==> (#[trigger] out@[w]).trip_count == accs@[w].count,
            seq_sum_by(out@, bf_row_count_f()) == seq_sum_by(
                accs@.subrange(0, k as int),
                acc_count_f(),
            ),
        decreases accs@.len() - k,
    {
        let a = &accs[k];
        proof {
            assert(acc_ok(items@, accs@[k as int], 1, n));
            assert(acc_bounded(accs@[k as int], 1, n));
            lemma_g_gv(items@, key_view(a.key), 0, n);
            let w0 = choose|w0: int|
                0 <= w0 < n && key_view((#[trigger] items@[w0]).key) == key_view(
                    accs@[k as int].key,
                );
            assert(itv[w0] == view_item(items@[w0]));
            assert(itv[w0].key == key_view(accs@[k as int].key));
            lemma_bf_items_keys(*ds, ds.trips@.len() as int);
            assert(key_view(accs@[k as int].key) is Boroughs);
        }
        let bs = boroughs_of_key(&a.key);
        let row = BoroughFlowStats {
            pickup_borough: bs.0,
            dropoff_borough: bs.1,
            trip_count: a.count,
            avg_fare_amount: make_avg(a.sums[0], a.cnts[0]),
        };
        proof {
            lemma_seq_sum_by_push(out@, bf_row_count_f(), row);
            assert(accs@.subrange(0, k as int + 1).drop_last() =~= accs@.subrange(0, k as int));
            assert(accs@.subrange(0, k as int + 1).last() == accs@[k as int]);
        }
        out.push(row);
        k += 1;
    }
    proof {
        assert(accs@.subrange(0, accs@.len() as int) =~= accs@);
        lemma_rows_complete(items@, accs@, out@, itv, 1, n);
    }
    out
}

/// The borough-flow breakdown: one row per distinct (pickup borough, dropoff
/// borough) pair among the qualifying trips, counted and averaged exactly,
/// ordered by trip count descending (ties keep first-seen order), and capped
/// at 100 rows. No row names an unknown or blank borough. When the cap does
/// not bite, every flow is present and the trip counts sum to the number of
/// qualifying trips.
#[verifier::rlimit(100)]
pub fn borough_flows(ds: &Dataset) -> (r: Vec<BoroughFlowStats>)
    ensures
        ({
            let itv = bf_items_prefix(*ds, ds.trips@.len() as int);
            &&& r@.len() <= 100
            &&& forall|ri: int| 0 <= ri < r@.len() ==> (#[trigger] r@[ri]).rok(itv, itv.len() as int)
            &&& forall|ri: int|
                0 <= ri < r@.len() ==> valid_borough((#[trigger] r@[ri]).pickup_borough@)
                    && valid_borough(r@[ri].dropoff_borough@)
            &&& forall|a: int, b: int|
                0 <= a < b < r@.len() ==> (#[trigger] r@[a]).rkey() != (#[trigger] r@[b]).rkey()
            &&& forall|a: int, b: int|
                0 <= a < b < r@.len() ==> (#[trigger] r@[a]).trip_count >= (
                #[trigger] r@[b]).trip_count
            &&& r@.len() < 100 ==> {
                &&& forall|j: int|
                    0 <= j < itv.len() ==> exists|ri: int|
                        0 <= ri < r@.len() && (#[trigger] r@[ri]).rkey() == (#[trigger] itv[j]).key
                &&& seq_sum_by(r@, bf_row_count_f()) == itv.len()
            }
        }),
{
    let ghost itv = bf_items_prefix(*ds, ds.trips@.len() as int);
    let mut out = bf_rows(ds);
    let ghost presort = out@;
    sort_by_key(&mut out);
    proof {
        lemma_cat_transfer(presort, out@, itv, itv.len() as int);
        assert forall|a: int, b: int|
            0 <= a < b < out@.len() implies (#[trigger] out@[a]).trip_count >= (
        #[trigger] out@[b]).trip_count by {
            assert(out@[a].le_spec(out@[b]));
        }
    }
    let ghost full = out@;
    if out.len() > 100 {
        out.truncate(100);
        proof {
            assert(out@ == full.subrange(0, 100));
        }
    } else {
        proof {
            assert(out@ == full);
        }
    }
    proof {
        lemma_bf_items_keys(*ds, ds.trips@.len() as int);
        assert forall|ri: int|
            0 <= ri < out@.len() implies valid_borough((#[trigger] out@[ri]).pickup_borough@)
            && valid_borough(out@[ri].dropoff_borough@) by {
            assert(out@[ri].rok(itv, itv.len() as int));
            let j = choose|j: int|
                0 <= j < itv.len() && (#[trigger] itv[j]).key == out@[ri].rkey();
        }
    }
    out
}

} // verus!
