//! Categorical breakdowns over the trips, one output row per distinct group
//! key. Shared policy: a trip whose dimension row is absent (or whose name
//! column is null) falls into the null group rather than being dropped;
//! count-ordered entries are sorted by trip count descending, rows that tie
//! keeping their first-seen order; every `avg_*` field is the exact average
//! over the non-null values of its source column, and zero when the group
//! has none; the trip counts over all rows sum to the number of qualifying
//! trips.
use vstd::prelude::*;
use crate::data::{Dataset, TripFact, NamedDim, find_named, find_location, view_opt_str,
    clone_opt_string, lookup_named, lookup_location};
use crate::frac::{Frac, avg_frac, make_avg};
use crate::order::{SortKey, sort_by_key, sorted_by_key};
use crate::seqsum::{seq_sum_by, lemma_seq_sum_by_push, lemma_all_preserved,
    lemma_exists_preserved, lemma_distinct_preserved};
use crate::group::{GroupKey, GroupKeyV, GroupItem, GroupAcc, ItemV, view_item, view_items,
    key_view, items_wf, group_rows, group_state_ok, acc_ok, acc_bounded, acc_count_f, gv_count,
    gv_sum, gv_cnt, lemma_g_gv};

verus! {

/// A finished breakdown row: its group key, its exactness statement against
/// the entry's items, and its trip count.
pub trait CatRow: Sized {
    /// The row's group key.
    spec fn rkey(self) -> GroupKeyV;

    /// The row reports its group's aggregates over all `n` items exactly.
    spec fn rok(self, itv: Seq<ItemV>, n: int) -> bool;

    /// The row's trip count.
    spec fn rcount(self) -> int;
}

/// Exactness, distinct keys and completeness survive sorting the rows.
pub proof fn lemma_cat_transfer<R: CatRow>(pre: Seq<R>, post: Seq<R>, itv: Seq<ItemV>, n: int)
    requires
        forall|f: spec_fn(R) -> int| #[trigger] seq_sum_by(post, f) == seq_sum_by(pre, f),
        forall|ri: int| 0 <= ri < pre.len() ==> (#[trigger] pre[ri]).rok(itv, n),
        forall|a: int, b: int|
            0 <= a < b < pre.len() ==> (#[trigger] pre[a]).rkey() != (#[trigger] pre[b]).rkey(),
        forall|j: int|
            0 <= j < n ==> exists|ri: int|
                0 <= ri < pre.len() && (#[trigger] pre[ri]).rkey() == (#[trigger] itv[j]).key,
    ensures
        forall|ri: int| 0 <= ri < post.len() ==> (#[trigger] post[ri]).rok(itv, n),
        forall|a: int, b: int|
            0 <= a < b < post.len() ==> (#[trigger] post[a]).rkey() != (#[trigger] post[b]).rkey(),
        forall|j: int|
            0 <= j < n ==> exists|ri: int|
                0 <= ri < post.len() && (#[trigger] post[ri]).rkey() == (#[trigger] itv[j]).key,
{
    lemma_all_preserved(pre, post, |r: R| r.rok(itv, n));
    lemma_distinct_preserved(pre, post, |r: R| r.rkey());
    assert forall|j: int|
        0 <= j < n implies exists|ri: int|
        0 <= ri < post.len() && (#[trigger] post[ri]).rkey() == (#[trigger] itv[j]).key by {
        let k = itv[j].key;
        let p = |r: R| r.rkey() == k;
        let w0 = choose|w0: int| 0 <= w0 < pre.len() && (#[trigger] pre[w0]).rkey() == k;
        assert(p(pre[w0]));
        lemma_exists_preserved(pre, post, p);
        let ri = choose|ri: int| 0 <= ri < post.len() && p(#[trigger] post[ri]);
        assert(post[ri].rkey() == k);
    }
}

/// Rows standing in one-to-one key correspondence with the accumulators
/// inherit completeness and distinctness from the grouping state.
pub proof fn lemma_rows_complete<R: CatRow>(
    items: Seq<GroupItem>,
    accs: Seq<GroupAcc>,
    rows: Seq<R>,
    itv: Seq<ItemV>,
    m: int,
    n: int,
)
    requires
        itv == view_items(items),
        n == items.len() as int,
        group_state_ok(items, accs, m, n),
        rows.len() == accs.len(),
        forall|w: int|
            0 <= w < rows.len() ==> (#[trigger] rows[w]).rkey() == key_view(accs[w].key),
    ensures
        forall|j: int|
            0 <= j < n ==> exists|ri: int|
                0 <= ri < rows.len() && (#[trigger] rows[ri]).rkey() == (#[trigger] itv[j]).key,
        forall|a: int, b: int|
            0 <= a < b < rows.len() ==> (#[trigger] rows[a]).rkey() != (#[trigger] rows[b]).rkey(),
{
    assert forall|j: int|
        0 <= j < n implies exists|ri: int|
        0 <= ri < rows.len() && (#[trigger] rows[ri]).rkey() == (#[trigger] itv[j]).key by {
        assert(itv[j] == view_item(items[j]));
        let w = choose|w: int|
            0 <= w < accs.len() && key_view((#[trigger] accs[w]).key) == key_view(items[j].key);
        assert(rows[w].rkey() == itv[j].key);
    }
    assert forall|a: int, b: int|
        0 <= a < b < rows.len() implies (#[trigger] rows[a]).rkey() != (
    #[trigger] rows[b]).rkey() by {
        assert(key_view(accs[a].key) != key_view(accs[b].key));
    }
}

/// The group key a nullable dimension key maps to: the name column of the
/// matching row, or the null group.
pub open spec fn spec_named_key(dim: Seq<NamedDim>, k: Option<i32>) -> Option<Seq<char>> {
    match k {
        Some(kk) => match find_named(dim, kk) {
            Some(row) => view_opt_str(row.name),
            None => None,
        },
        None => None,
    }
}

/// The name column of the dimension row `k` points at, if any.
fn named_key(dim: &Vec<NamedDim>, k: Option<i32>) -> (r: Option<String>)
    ensures
        view_opt_str(r) == spec_named_key(dim@, k),
{
    match k {
        Some(kk) => match lookup_named(dim, kk) {
            Some(idx) => clone_opt_string(&dim[idx].name),
            None => None,
        },
        None => None,
    }
}

/// The nullable name inside a name-shaped group key.
fn name_of_key(k: &GroupKey) -> (r: Option<String>)
    requires
        key_view(*k) is Name,
    ensures
        GroupKeyV::Name(view_opt_str(r)) == key_view(*k),
{
    match k {
        GroupKey::Name(n) => clone_opt_string(n),
        _ => {
            proof {
                assert(false);
            }
            None
        },
    }
}

/// Group key of a trip in the payment-type breakdown.
pub open spec fn payment_key(ds: Dataset, t: TripFact) -> GroupKeyV {
    GroupKeyV::Name(spec_named_key(ds.payment_types@, t.payment_type_key))
}

/// The payment-type items of the first `n` trips: every trip, keyed by
/// payment-type name, with its tip amount as the single measure.
pub open spec fn pay_items_prefix(ds: Dataset, n: int) -> Seq<ItemV>
    decreases n,
{
    if n <= 0 {
        Seq::empty()
    } else {
        pay_items_prefix(ds, n - 1).push(
            ItemV {
                key: payment_key(ds, ds.trips@[n - 1]),
                measures: seq![ds.trips@[n - 1].tip_amount],
            },
        )
    }
}

/// Length and contents of the payment-type items.
pub proof fn lemma_pay_items_index(ds: Dataset, n: int, j: int)
    requires
        0 <= j < n,
    ensures
        pay_items_prefix(ds, n).len() == n,
        pay_items_prefix(ds, n)[j] == (ItemV {
            key: payment_key(ds, ds.trips@[j]),
            measures: seq![ds.trips@[j].tip_amount],
        }),
    decreases n,
{
    if j < n - 1 {
        lemma_pay_items_index(ds, n - 1, j);
    } else {
        if n - 1 > 0 {
            lemma_pay_items_index(ds, n - 1, 0);
        } else {
            assert(pay_items_prefix(ds, 0) =~= Seq::<ItemV>::empty());
        }
    }
}

/// One row of the payment-type breakdown. The group's name column is kept
/// nullable; [`PaymentTypeAnalysis::display_name`] renders the null group.
pub struct PaymentTypeAnalysis {
    pub payment_type_name: Option<String>,
    pub trip_count: u64,
    pub avg_tip_amount: Frac,
}

impl PaymentTypeAnalysis {
    /// The name shown for the group: the dimension name, or `"Unknown"` for
    /// the null group.
    pub fn display_name(&self) -> (r: String)
        ensures
            match self.payment_type_name {
                Some(s) => r@ == s@,
                None => r@ == "Unknown"@,
            },
    {
        match &self.payment_type_name {
            Some(s) => s.clone(),
            None => "Unknown".to_owned(),
        }
    }
}

impl CatRow for PaymentTypeAnalysis {
    open spec fn rkey(self) -> GroupKeyV {
        GroupKeyV::Name(view_opt_str(self.payment_type_name))
    }

    open spec fn rok(self, itv: Seq<ItemV>, n: int) -> bool {
        &&& self.trip_count == gv_count(itv, self.rkey(), n)
        &&& self.avg_tip_amount == avg_frac(
            gv_sum(itv, self.rkey(), 0, n),
            gv_cnt(itv, self.rkey(), 0, n),
        )
        &&& exists|j: int| 0 <= j < n && (#[trigger] itv[j]).key == self.rkey()
    }

    open spec fn rcount(self) -> int {
        self.trip_count as int
    }
}

impl SortKey for PaymentTypeAnalysis {
    open spec fn le_spec(self, other: PaymentTypeAnalysis) -> bool {
        self.trip_count >= other.trip_count
    }

    proof fn lemma_total(a: PaymentTypeAnalysis, b: PaymentTypeAnalysis) {
    }

    proof fn lemma_trans(a: PaymentTypeAnalysis, b: PaymentTypeAnalysis, c: PaymentTypeAnalysis) {
    }

    fn le(&self, other: &PaymentTypeAnalysis) -> (r: bool) {
        self.trip_count >= other.trip_count
    }
}

/// Contribution of an output row to the breakdown's total trip count.
pub open spec fn pay_row_count_f() -> spec_fn(PaymentTypeAnalysis) -> int {
    |row: PaymentTypeAnalysis| row.trip_count as int
}

/// Build the payment-type items.
fn pay_build(ds: &Dataset) -> (items: Vec<GroupItem>)
    ensures
        view_items(items@) == pay_items_prefix(*ds, ds.trips@.len() as int),
        items_wf(items@, 1),
        items@.len() == ds.trips@.len(),
{
    let mut items: Vec<GroupItem> = Vec::new();
    let mut i: usize = 0;
    proof {
        assert(view_items(items@) =~= pay_items_prefix(*ds, 0));
    }
    while i < ds.trips.len()
        invariant
            i <= ds.trips@.len(),
            items@.len() == i,
            items_wf(items@, 1),
            view_items(items@) == pay_items_prefix(*ds, i as int),
        decreases ds.trips@.len() - i,
    {
        let t = &ds.trips[i];
        let key = GroupKey::Name(named_key(&ds.payment_types, t.payment_type_key));
        let mut measures: Vec<Option<i64>> = Vec::new();
        measures.push(t.tip_amount);
        let g = GroupItem { key, measures };
        proof {
            assert(g.measures@ =~= seq![ds.trips@[i as int].tip_amount]);
            assert(view_item(g) == pay_items_prefix(*ds, i as int + 1).last());
            assert(view_items(items@.push(g)) =~= view_items(items@).push(view_item(g)));
            assert(view_items(items@.push(g)) =~= pay_items_prefix(*ds, i as int + 1));
        }
        items.push(g);
        i += 1;
    }
    items
}

/// The payment-type breakdown: one row per distinct group key among the
/// trips, counted and averaged exactly, ordered by trip count descending
/// (ties keep first-seen order). The trip counts over all rows sum to the
/// number of trips.
#[verifier::rlimit(100)]
fn pay_rows(ds: &Dataset) -> (r: Vec<PaymentTypeAnalysis>)
    ensures
        ({
            let itv = pay_items_prefix(*ds, ds.trips@.len() as int);
            let n = ds.trips@.len() as int;
            &&& forall|ri: int| 0 <= ri < r@.len() ==> (#[trigger] r@[ri]).rok(itv, n)
            &&& forall|a: int, b: int|
                0 <= a < b < r@.len() ==> (#[trigger] r@[a]).rkey() != (#[trigger] r@[b]).rkey()
            &&& forall|j: int|
                0 <= j < n ==> exists|ri: int|
                    0 <= ri < r@.len() && (#[trigger] r@[ri]).rkey() == (#[trigger] itv[j]).key
            &&& seq_sum_by(r@, pay_row_count_f()) == n
        }),
{
    let items = pay_build(ds);
    let ghost itv = pay_items_prefix(*ds, ds.trips@.len() as int);
    let ghost n = ds.trips@.len() as int;
    let accs = group_rows(&items, 1);
    let mut out: Vec<PaymentTypeAnalysis> = Vec::new();
    let mut k: usize = 0;
    proof {
        assert(accs@.subrange(0, 0) =~= Seq::<GroupAcc>::empty());
    }
    while k < accs.len()
        invariant
            k <= accs@.len(),
            out@.len() == k,
            itv == view_items(items@),
            itv == pay_items_prefix(*ds, n),
            n == items@.len() as int,
            n == ds.trips@.len() as int,
            group_state_ok(items@, accs@, 1, n),
            forall|w: int| 0 <= w < k ==> (#[trigger] out@[w]).rok(itv, n),
            forall|w: int| 0 <= w < k ==> (#[trigger] out@[w]).rkey() == key_view(accs@[w].key),
            forall|w: int| 0 <= w < k ==> (#[trigger] out@[w]).trip_count == accs@[w].count,
            seq_sum_by(out@, pay_row_count_f()) == seq_sum_by(
                accs@.subrange(0, k as int),
                acc_count_f(),
            ),
        decreases accs@.len() - k,
    {
        let a = &accs[k];
        proof {
            assert(acc_ok(items@, accs@[k as int], 1, n));
            assert(acc_bounded(accs@[k as int], 1, n));
            lemma_g_gv(items@, key_view(a.key), 0, n);
            let w0 = choose|w0: int|
                0 <= w0 < n && key_view((#[trigger] items@[w0]).key) == key_view(
                    accs@[k as int].key,
                );
            assert(itv[w0] == view_item(items@[w0]));
            assert(itv[w0].key == key_view(accs@[k as int].key));
            lemma_pay_items_index(*ds, n, w0);
            assert(key_view(accs@[k as int].key) is Name);
        }
        let row = PaymentTypeAnalysis {
            payment_type_name: name_of_key(&a.key),
            trip_count: a.count,
            avg_tip_amount: make_avg(a.sums[0], a.cnts[0]),
        };
        proof {
            lemma_seq_sum_by_push(out@, pay_row_count_f(), row);
            assert(accs@.subrange(0, k as int + 1).drop_last() =~= accs@.subrange(0, k as int));
            assert(accs@.subrange(0, k as int + 1).last() == accs@[k as int]);
        }
        out.push(row);
        k += 1;
    }
    proof {
        assert(accs@.subrange(0, accs@.len() as int) =~= accs@);
        assert forall|j: int|
            0 <= j < n implies exists|ri: int|
            0 <= ri < out@.len() && (#[trigger] out@[ri]).rkey() == (#[trigger] itv[j]).key by {
            assert(itv[j] == view_item(items@[j]));
            let w = choose|w: int|
                0 <= w < accs@.len() && key_view((#[trigger] accs@[w]).key) == key_view(
                    items@[j].key,
                );
            assert(out@[w].rkey() == itv[j].key);
        }
    }
    out
}

/// The payment-type breakdown: one row per distinct group key among the
/// trips, counted and averaged exactly, ordered by trip count descending
/// (ties keep first-seen order). The trip counts over all rows sum to the
/// number of trips.
pub fn payment_analysis(ds: &Dataset) -> (r: Vec<PaymentTypeAnalysis>)
    ensures
        ({
            let itv = pay_items_prefix(*ds, ds.trips@.len() as int);
            let n = ds.trips@.len() as int;
            &&& forall|ri: int| 0 <= ri < r@.len() ==> (#[trigger] r@[ri]).rok(itv, n)
            &&& forall|a: int, b: int|
                0 <= a < b < r@.len() ==> (#[trigger] r@[a]).rkey() != (#[trigger] r@[b]).rkey()
            &&& forall|j: int|
                0 <= j < n ==> exists|ri: int|
                    0 <= ri < r@.len() && (#[trigger] r@[ri]).rkey() == (#[trigger] itv[j]).key
            &&& forall|a: int, b: int|
                0 <= a < b < r@.len() ==> (#[trigger] r@[a]).trip_count >= (
                #[trigger] r@[b]).trip_count
            &&& seq_sum_by(r@, pay_row_count_f()) == n
        }),
{
    let ghost itv = pay_items_prefix(*ds, ds.trips@.len() as int);
    let ghost n = ds.trips@.len() as int;
    let mut out = pay_rows(ds);
    let ghost presort = out@;
    sort_by_key(&mut out);
    proof {
        lemma_cat_transfer(presort, out@, itv, n);
        assert forall|a: int, b: int|
            0 <= a < b < out@.len() implies (#[trigger] out@[a]).trip_count >= (
        #[trigger] out@[b]).trip_count by {
            assert(out@[a].le_spec(out@[b]));
        }
    }
    out
}

/// Group key of a trip in the rate-code breakdown.
pub open spec fn rate_code_key(ds: Dataset, t: TripFact) -> GroupKeyV {
    GroupKeyV::Name(spec_named_key(ds.rate_codes@, t.rate_code_key))
}

/// The rate-code items of the first `n` trips: every trip, keyed by
/// rate-code name, with total amount, trip distance and tip amount as the
/// measures.
pub open spec fn rc_items_prefix(ds: Dataset, n: int) -> Seq<ItemV>
    decreases n,
{
    if n <= 0 {
        Seq::empty()
    } else {
        rc_items_prefix(ds, n - 1).push(
            ItemV {
                key: rate_code_key(ds, ds.trips@[n - 1]),
                measures: seq![
                    ds.trips@[n - 1].total_amount,
                    ds.trips@[n - 1].trip_distance,
                    ds.trips@[n - 1].tip_amount,
                ],
            },
        )
    }
}

/// Length and contents of the rate-code items.
pub proof fn lemma_rc_items_index(ds: Dataset, n: int, j: int)
    requires
        0 <= j < n,
    ensures
        rc_items_prefix(ds, n).len() == n,
        rc_items_prefix(ds, n)[j] == (ItemV {
            key: rate_code_key(ds, ds.trips@[j]),
            measures: seq![
                ds.trips@[j].total_amount,
                ds.trips@[j].trip_distance,
                ds.trips@[j].tip_amount,
            ],
        }),
    decreases n,
{
    if j < n - 1 {
        lemma_rc_items_index(ds, n - 1, j);
    } else {
        if n - 1 > 0 {
            lemma_rc_items_index(ds, n - 1, 0);
        } else {
            assert(rc_items_prefix(ds, 0) =~= Seq::<ItemV>::empty());
        }
    }
}

/// One row of the rate-code breakdown; the name column is kept nullable and
/// [`RateCodeAnalysis::display_name`] renders the null group.
pub struct RateCodeAnalysis {
    pub rate_code_name: Option<String>,
    pub trip_count: u64,
    pub avg_total_amount: Frac,
    pub avg_trip_distance: Frac,
    pub avg_tip_amount: Frac,
}

impl RateCodeAnalysis {
    /// The name shown for the group: the dimension name, or `"Unknown"` for
    /// the null group.
    pub fn display_name(&self) -> (r: String)
        ensures
            match self.rate_code_name {
                Some(s) => r@ == s@,
                None => r@ == "Unknown"@,
            },
    {
        match &self.rate_code_name {
            Some(s) => s.clone(),
            None => "Unknown".to_owned(),
        }
    }
}

impl CatRow for RateCodeAnalysis {
    open spec fn rkey(self) -> GroupKeyV {
        GroupKeyV::Name(view_opt_str(self.rate_code_name))
    }

    open spec fn rok(self, itv: Seq<ItemV>, n: int) -> bool {
        &&& self.trip_count == gv_count(itv, self.rkey(), n)
        &&& self.avg_total_amount == avg_frac(
            gv_sum(itv, self.rkey(), 0, n),
            gv_cnt(itv, self.rkey(), 0, n),
        )
        &&& self.avg_trip_distance == avg_frac(
            gv_sum(itv, self.rkey(), 1, n),
            gv_cnt(itv, self.rkey(), 1, n),
        )
        &&& self.avg_tip_amount == avg_frac(
            gv_sum(itv, self.rkey(), 2, n),
            gv_cnt(itv, self.rkey(), 2, n),
        )
        &&& exists|j: int| 0 <= j < n && (#[trigger] itv[j]).key == self.rkey()
    }

    open spec fn rcount(self) -> int {
        self.trip_count as int
    }
}

impl SortKey for RateCodeAnalysis {
    open spec fn le_spec(self, other: RateCodeAnalysis) -> bool {
        self.trip_count >= other.trip_count
    }

    proof fn lemma_total(a: RateCodeAnalysis, b: RateCodeAnalysis) {
    }

    proof fn lemma_trans(a: RateCodeAnalysis, b: RateCodeAnalysis, c: RateCodeAnalysis) {
    }

    fn le(&self, other: &RateCodeAnalysis) -> (r: bool) {
        self.trip_count >= other.trip_count
    }
}

/// Contribution of an output row to the breakdown's total trip count.
pub open spec fn rc_row_count_f() -> spec_fn(RateCodeAnalysis) -> int {
    |row: RateCodeAnalysis| row.trip_count as int
}

/// Build the rate-code items.
fn rc_build(ds: &Dataset) -> (items: Vec<GroupItem>)
    ensures
        view_items(items@) == rc_items_prefix(*ds, ds.trips@.len() as int),
        items_wf(items@, 3),
        items@.len() == ds.trips@.len(),
{
    let mut items: Vec<GroupItem> = Vec::new();
    let mut i: usize = 0;
    proof {
        assert(view_items(items@) =~= rc_items_prefix(*ds, 0));
    }
    while i < ds.trips.len()
        invariant
            i <= ds.trips@.len(),
            items@.len() == i,
            items_wf(items@, 3),
            view_items(items@) == rc_items_prefix(*ds, i as int),
        decreases ds.trips@.len() - i,
    {
        let t = &ds.trips[i];
        let key = GroupKey::Name(named_key(&ds.rate_codes, t.rate_code_key));
        let mut measures: Vec<Option<i64>> = Vec::new();
        measures.push(t.total_amount);
        measures.push(t.trip_distance);
        measures.push(t.tip_amount);
        let g = GroupItem { key, measures };
        proof {
            assert(g.measures@ =~= seq![
                ds.trips@[i as int].total_amount,
                ds.trips@[i as int].trip_distance,
                ds.trips@[i as int].tip_amount,
            ]);
            assert(view_item(g) == rc_items_prefix(*ds, i as int + 1).last());
            assert(view_items(items@.push(g)) =~= view_items(items@).push(view_item(g)));
            assert(view_items(items@.push(g)) =~= rc_items_prefix(*ds, i as int + 1));
        }
        items.push(g);
        i += 1;
    }
    items
}

/// The unsorted rate-code rows.
#[verifier::rlimit(100)]
fn rc_rows(ds: &Dataset) -> (r: Vec<RateCodeAnalysis>)
    ensures
        ({
            let itv = rc_items_prefix(*ds, ds.trips@.len() as int);
            let n = ds.trips@.len() as int;
            &&& forall|ri: int| 0 <= ri < r@.len() ==> (#[trigger] r@[ri]).rok(itv, n)
            &&& forall|a: int, b: int|
                0 <= a < b < r@.len() ==> (#[trigger] r@[a]).rkey() != (#[trigger] r@[b]).rkey()
            &&& forall|j: int|
                0 <= j < n ==> exists|ri: int|
                    0 <= ri < r@.len() && (#[trigger] r@[ri]).rkey() == (#[trigger] itv[j]).key
            &&& seq_sum_by(r@, rc_row_count_f()) == n
        }),
{
    let items = rc_build(ds);
    let ghost itv = rc_items_prefix(*ds, ds.trips@.len() as int);
    let ghost n = ds.trips@.len() as int;
    let accs = group_rows(&items, 3);
    let mut out: Vec<RateCodeAnalysis> = Vec::new();
    let mut k: usize = 0;
    proof {
        assert(accs@.subrange(0, 0) =~= Seq::<GroupAcc>::empty());
    }
    while k < accs.len()
        invariant
            k <= accs@.len(),
            out@.len() == k,
            itv == view_items(items@),
            itv == rc_items_prefix(*ds, n),
            n == items@.len() as int,
            n == ds.trips@.len() as int,
            group_state_ok(items@, accs@, 3, n),
            forall|w: int| 0 <= w < k ==> (#[trigger] out@[w]).rok(itv, n),
            forall|w: int| 0 <= w < k ==> (#[trigger] out@[w]).rkey() == key_view(accs@[w].key),
            forall|w: int| 0 <= w < k ==> (#[trigger] out@[w]).trip_count == accs@[w].count,
            seq_sum_by(out@, rc_row_count_f()) == seq_sum_by(
                accs@.subrange(0, k as int),
                acc_count_f(),
            ),
        decreases accs@.len() - k,
    {
        let a = &accs[k];
        proof {
            assert(acc_ok(items@, accs@[k as int], 3, n));
            assert(acc_bounded(accs@[k as int], 3, n));
            lemma_g_gv(items@, key_view(a.key), 0, n);
            lemma_g_gv(items@, key_view(a.key), 1, n);
            lemma_g_gv(items@, key_view(a.key), 2, n);
            let w0 = choose|w0: int|
                0 <= w0 < n && key_view((#[trigger] items@[w0]).key) == key_view(
                    accs@[k as int].key,
                );
            assert(itv[w0] == view_item(items@[w0]));
            assert(itv[w0].key == key_view(accs@[k as int].key));
            lemma_rc_items_index(*ds, n, w0);
            assert(key_view(accs@[k as int].key) is Name);
        }
        let row = RateCodeAnalysis {
            rate_code_name: name_of_key(&a.key),
            trip_count: a.count,
            avg_total_amount: make_avg(a.sums[0], a.cnts[0]),
            avg_trip_distance: make_avg(a.sums[1], a.cnts[1]),
            avg_tip_amount: make_avg(a.sums[2], a.cnts[2]),
        };
        proof {
            lemma_seq_sum_by_push(out@, rc_row_count_f(), row);
            assert(accs@.subrange(0, k as int + 1).drop_last() =~= accs@.subrange(0, k as int));
            assert(accs@.subrange(0, k as int + 1).last() == accs@[k as int]);
        }
        out.push(row);
        k += 1;
    }
    proof {
        assert(accs@.subrange(0, accs@.len() as int) =~= accs@);
        assert forall|j: int|
            0 <= j < n implies exists|ri: int|
            0 <= ri < out@.len() && (#[trigger] out@[ri]).rkey() == (#[trigger] itv[j]).key by {
            assert(itv[j] == view_item(items@[j]));
            let w = choose|w: int|
                0 <= w < accs@.len() && key_view((#[trigger] accs@[w]).key) == key_view(
                    items@[j].key,
                );
            assert(out@[w].rkey() == itv[j].key);
        }
    }
    out
}

/// The rate-code breakdown: one row per distinct group key among the trips,
/// counted and averaged exactly, ordered by trip count descending (ties keep
/// first-seen order). The trip counts over all rows sum to the number of
/// trips.
pub fn rate_code_analysis(ds: &Dataset) -> (r: Vec<RateCodeAnalysis>)
    ensures
        ({
            let itv = rc_items_prefix(*ds, ds.trips@.len() as int);
            let n = ds.trips@.len() as int;
            &&& forall|ri: int| 0 <= ri < r@.len() ==> (#[trigger] r@[ri]).rok(itv, n)
            &&& forall|a: int, b: int|
                0 <= a < b < r@.len() ==> (#[trigger] r@[a]).rkey() != (#[trigger] r@[b]).rkey()
            &&& forall|j: int|
                0 <= j < n ==> exists|ri: int|
                    0 <= ri < r@.len() && (#[trigger] r@[ri]).rkey() == (#[trigger] itv[j]).key
            &&& forall|a: int, b: int|
                0 <= a < b < r@.len() ==> (#[trigger] r@[a]).trip_count >= (
                #[trigger] r@[b]).trip_count
            &&& seq_sum_by(r@, rc_row_count_f()) == n
        }),
{
    let ghost itv = rc_items_prefix(*ds, ds.trips@.len() as int);
    let ghost n = ds.trips@.len() as int;
    let mut out = rc_rows(ds);
    let ghost presort = out@;
    sort_by_key(&mut out);
    proof {
        lemma_cat_transfer(presort, out@, itv, n);
        assert forall|a: int, b: int|
            0 <= a < b < out@.len() implies (#[trigger] out@[a]).trip_count >= (
        #[trigger] out@[b]).trip_count by {
            assert(out@[a].le_spec(out@[b]));
        }
    }
    out
}

/// The nullable integer inside a key-shaped group key.
fn i32_of_key(k: &GroupKey) -> (r: Option<i32>)
    requires
        key_view(*k) is Key,
    ensures
        GroupKeyV::Key(r) == key_view(*k),
{
    match k {
        GroupKey::Key(x) => *x,
        _ => {
            proof {
                assert(false);
            }
            None
        },
    }
}

/// Group key of a trip in the vendor breakdown: the surrogate key of the
/// vendor row it joins to, or the null group.
pub open spec fn vendor_group_key(ds: Dataset, t: TripFact) -> GroupKeyV {
    GroupKeyV::Key(
        match t.vendor_key {
            Some(k) => match find_named(ds.vendors@, k) {
                Some(row) => Some(row.key),
                None => None,
            },
            None => None,
        },
    )
}

/// The raw dimension name a vendor group reports, before labelling.
pub open spec fn vendor_dim_name(dim: Seq<NamedDim>, k: Option<i32>) -> Option<Seq<char>> {
    spec_named_key(dim, k)
}

/// The vendor items of the first `n` trips: every trip, keyed by its vendor
/// group, with total amount and trip distance as the measures.
pub open spec fn vn_items_prefix(ds: Dataset, n: int) -> Seq<ItemV>
    decreases n,
{
    if n <= 0 {
        Seq::empty()
    } else {
        vn_items_prefix(ds, n - 1).push(
            ItemV {
                key: vendor_group_key(ds, ds.trips@[n - 1]),
                measures: seq![ds.trips@[n - 1].total_amount, ds.trips@[n - 1].trip_distance],
            },
        )
    }
}

/// Every vendor item key has the right shape.
pub proof fn lemma_vn_items_keys(ds: Dataset, n: int)
    requires
        n >= 0,
    ensures
        vn_items_prefix(ds, n).len() == n,
        forall|x: int|
            0 <= x < n ==> (#[trigger] vn_items_prefix(ds, n)[x]).key is Key,
    decreases n,
{
    if n > 0 {
        lemma_vn_items_keys(ds, n - 1);
        assert forall|x: int|
            0 <= x < n implies (#[trigger] vn_items_prefix(ds, n)[x]).key is Key by {
            if x < n - 1 {
                assert(vn_items_prefix(ds, n)[x] == vn_items_prefix(ds, n - 1)[x]);
            }
        }
    } else {
        assert(vn_items_prefix(ds, 0) =~= Seq::<ItemV>::empty());
    }
}

/// One row of the vendor breakdown: the vendor's surrogate key (or the null
/// group) with its raw dimension name; `display_name` renders the label.
pub struct VendorAnalysis {
    pub vendor_key: Option<i32>,
    pub vendor_name: Option<String>,
    pub trip_count: u64,
    pub avg_total_amount: Frac,
    pub avg_trip_distance: Frac,
}

impl CatRow for VendorAnalysis {
    open spec fn rkey(self) -> GroupKeyV {
        GroupKeyV::Key(self.vendor_key)
    }

    open spec fn rok(self, itv: Seq<ItemV>, n: int) -> bool {
        &&& self.trip_count == gv_count(itv, self.rkey(), n)
        &&& self.avg_total_amount == avg_frac(
            gv_sum(itv, self.rkey(), 0, n),
            gv_cnt(itv, self.rkey(), 0, n),
        )
        &&& self.avg_trip_distance == avg_frac(
            gv_sum(itv, self.rkey(), 1, n),
            gv_cnt(itv, self.rkey(), 1, n),
        )
        &&& exists|j: int| 0 <= j < n && (#[trigger] itv[j]).key == self.rkey()
    }

    open spec fn rcount(self) -> int {
        self.trip_count as int
    }
}

impl SortKey for VendorAnalysis {
    open spec fn le_spec(self, other: VendorAnalysis) -> bool {
        self.trip_count >= other.trip_count
    }

    proof fn lemma_total(a: VendorAnalysis, b: VendorAnalysis) {
    }

    proof fn lemma_trans(a: VendorAnalysis, b: VendorAnalysis, c: VendorAnalysis) {
    }

    fn le(&self, other: &VendorAnalysis) -> (r: bool) {
        self.trip_count >= other.trip_count
    }
}

/// Contribution of an output row to the breakdown's total trip count.
pub open spec fn vn_row_count_f() -> spec_fn(VendorAnalysis) -> int {
    |row: VendorAnalysis| row.trip_count as int
}

/// A vendor row's raw name agrees with the vendor dimension.
pub open spec fn vn_name_ok(ds: Dataset, row: VendorAnalysis) -> bool {
    view_opt_str(row.vendor_name) == vendor_dim_name(ds.vendors@, row.vendor_key)
}

/// Build the vendor items.
fn vn_build(ds: &Dataset) -> (items: Vec<GroupItem>)
    ensures
        view_items(items@) == vn_items_prefix(*ds, ds.trips@.len() as int),
        items_wf(items@, 2),
        items@.len() == ds.trips@.len(),
{
    let mut items: Vec<GroupItem> = Vec::new();
    let mut i: usize = 0;
    proof {
        assert(view_items(items@) =~= vn_items_prefix(*ds, 0));
    }
    while i < ds.trips.len()
        invariant
            i <= ds.trips@.len(),
            items@.len() == i,
            items_wf(items@, 2),
            view_items(items@) == vn_items_prefix(*ds, i as int),
        decreases ds.trips@.len() - i,
    {
        let t = &ds.trips[i];
        let key: Option<i32> = match t.vendor_key {
            Some(k) => match lookup_named(&ds.vendors, k) {
                Some(idx) => Some(ds.vendors[idx].key),
                None => None,
            },
            None => None,
        };
        let mut measures: Vec<Option<i64>> = Vec::new();
        measures.push(t.total_amount);
        measures.push(t.trip_distance);
        let g = GroupItem { key: GroupKey::Key(key), measures };
        proof {
            assert(g.measures@ =~= seq![
                ds.trips@[i as int].total_amount,
                ds.trips@[i as int].trip_distance,
            ]);
            assert(view_item(g) == vn_items_prefix(*ds, i as int + 1).last());
            assert(view_items(items@.push(g)) =~= view_items(items@).push(view_item(g)));
            assert(view_items(items@.push(g)) =~= vn_items_prefix(*ds, i as int + 1));
        }
        items.push(g);
        i += 1;
    }
    items
}

/// The unsorted vendor rows.
#[verifier::rlimit(100)]
fn vn_rows(ds: &Dataset) -> (r: Vec<VendorAnalysis>)
    ensures
        ({
            let itv = vn_items_prefix(*ds, ds.trips@.len() as int);
            let n = ds.trips@.len() as int;
            &&& forall|ri: int| 0 <= ri < r@.len() ==> (#[trigger] r@[ri]).rok(itv, n)
            &&& forall|ri: int| 0 <= ri < r@.len() ==> vn_name_ok(*ds, #[trigger] r@[ri])
            &&& forall|a: int, b: int|
                0 <= a < b < r@.len() ==> (#[trigger] r@[a]).rkey() != (#[trigger] r@[b]).rkey()
            &&& forall|j: int|
                0 <= j < n ==> exists|ri: int|
                    0 <= ri < r@.len() && (#[trigger] r@[ri]).rkey() == (#[trigger] itv[j]).key
            &&& seq_sum_by(r@, vn_row_count_f()) == n
        }),
{
    let items = vn_build(ds);
    let ghost itv = vn_items_prefix(*ds, ds.trips@.len() as int);
    let ghost n = ds.trips@.len() as int;
    let accs = group_rows(&items, 2);
    let mut out: Vec<VendorAnalysis> = Vec::new();
    let mut k: usize = 0;
    proof {
        assert(accs@.subrange(0, 0) =~= Seq::<GroupAcc>::empty());
    }
    while k < accs.len()
        invariant
            k <= accs@.len(),
            out@.len() == k,
            itv == view_items(items@),
            itv == vn_items_prefix(*ds, n),
            n == items@.len() as int,
            n == ds.trips@.len() as int,
            group_state_ok(items@, accs@, 2, n),
            forall|w: int| 0 <= w < k ==> (#[trigger] out@[w]).rok(itv, n),
            forall|w: int| 0 <= w < k ==> vn_name_ok(*ds, #[trigger] out@[w]),
            forall|w: int| 0 <= w < k ==> (#[trigger] out@[w]).rkey() == key_view(accs@[w].key),
            forall|w: int| 0 <= w < k ==> (#[trigger] out@[w]).trip_count == accs@[w].count,
            seq_sum_by(out@, vn_row_count_f()) == seq_sum_by(
                accs@.subrange(0, k as int),
                acc_count_f(),
            ),
        decreases accs@.len() - k,
    {
        let a = &accs[k];
        proof {
            assert(acc_ok(items@, accs@[k as int], 2, n));
            assert(acc_bounded(accs@[k as int], 2, n));
            lemma_g_gv(items@, key_view(a.key), 0, n);
            lemma_g_gv(items@, key_view(a.key), 1, n);
            let w0 = choose|w0: int|
                0 <= w0 < n && key_view((#[trigger] items@[w0]).key) == key_view(
                    accs@[k as int].key,
                );
            assert(itv[w0] == view_item(items@[w0]));
            assert(itv[w0].key == key_view(accs@[k as int].key));
            lemma_vn_items_keys(*ds, n);
            assert(key_view(accs@[k as int].key) is Key);
        }
        let vkey = i32_of_key(&a.key);
        let vname = named_key(&ds.vendors, vkey);
        let row = VendorAnalysis {
            vendor_key: vkey,
            vendor_name: vname,
            trip_count: a.count,
            avg_total_amount: make_avg(a.sums[0], a.cnts[0]),
            avg_trip_distance: make_avg(a.sums[1], a.cnts[1]),
        };
        proof {
            lemma_seq_sum_by_push(out@, vn_row_count_f(), row);
            assert(accs@.subrange(0, k as int + 1).drop_last() =~= accs@.subrange(0, k as int));
            assert(accs@.subrange(0, k as int + 1).last() == accs@[k as int]);
        }
        out.push(row);
        k += 1;
    }
    proof {
        assert(accs@.subrange(0, accs@.len() as int) =~= accs@);
        lemma_rows_complete(items@, accs@, out@, itv, 2, n);
    }
    out
}

/// The vendor breakdown: one row per distinct vendor group among the trips,
/// counted and averaged exactly, ordered by trip count descending (ties keep
/// first-seen order); each row also carries its raw dimension name. The trip
/// counts over all rows sum to the number of trips.
pub fn vendor_analysis(ds: &Dataset) -> (r: Vec<VendorAnalysis>)
    ensures
        ({
            let itv = vn_items_prefix(*ds, ds.trips@.len() as int);
            let n = ds.trips@.len() as int;
            &&& forall|ri: int| 0 <= ri < r@.len() ==> (#[trigger] r@[ri]).rok(itv, n)
            &&& forall|ri: int| 0 <= ri < r@.len() ==> vn_name_ok(*ds, #[trigger] r@[ri])
            &&& forall|a: int, b: int|
                0 <= a < b < r@.len() ==> (#[trigger] r@[a]).rkey() != (#[trigger] r@[b]).rkey()
            &&& forall|j: int|
                0 <= j < n ==> exists|ri: int|
                    0 <= ri < r@.len() && (#[trigger] r@[ri]).rkey() == (#[trigger] itv[j]).key
            &&& forall|a: int, b: int|
                0 <= a < b < r@.len() ==> (#[trigger] r@[a]).trip_count >= (
                #[trigger] r@[b]).trip_count
            &&& seq_sum_by(r@, vn_row_count_f()) == n
        }),
{
    let ghost itv = vn_items_prefix(*ds, ds.trips@.len() as int);
    let ghost n = ds.trips@.len() as int;
    let mut out = vn_rows(ds);
    let ghost presort = out@;
    sort_by_key(&mut out);
    proof {
        lemma_cat_transfer(presort, out@, itv, n);
        lemma_all_preserved(presort, out@, |row: VendorAnalysis| vn_name_ok(*ds, row));
        assert forall|a: int, b: int|
            0 <= a < b < out@.len() implies (#[trigger] out@[a]).trip_count >= (
        #[trigger] out@[b]).trip_count by {
            assert(out@[a].le_spec(out@[b]));
        }
    }
    out
}

/// Group key of a trip in the passenger-count breakdown: the nullable
/// passenger count itself.
pub open spec fn passenger_group_key(t: TripFact) -> GroupKeyV {
    GroupKeyV::Key(t.passenger_count)
}

/// The passenger-count items of the first `n` trips: every trip, keyed by
/// its passenger count, with no measures.
pub open spec fn pc_items_prefix(ds: Dataset, n: int) -> Seq<ItemV>
    decreases n,
{
    if n <= 0 {
        Seq::empty()
    } else {
        pc_items_prefix(ds, n - 1).push(
            ItemV { key: passenger_group_key(ds.trips@[n - 1]), measures: Seq::empty() },
        )
    }
}

/// Every passenger item key has the right shape.
pub proof fn lemma_pc_items_keys(ds: Dataset, n: int)
    requires
        n >= 0,
    ensures
        pc_items_prefix(ds, n).len() == n,
        forall|x: int| 0 <= x < n ==> (#[trigger] pc_items_prefix(ds, n)[x]).key is Key,
    decreases n,
{
    if n > 0 {
        lemma_pc_items_keys(ds, n - 1);
        assert forall|x: int|
            0 <= x < n implies (#[trigger] pc_items_prefix(ds, n)[x]).key is Key by {
            if x < n - 1 {
                assert(pc_items_prefix(ds, n)[x] == pc_items_prefix(ds, n - 1)[x]);
            }
        }
    } else {
        assert(pc_items_prefix(ds, 0) =~= Seq::<ItemV>::empty());
    }
}

/// One row of the passenger-count breakdown.
pub struct PassengerAnalysis {
    pub passenger_count: Option<i32>,
    pub trip_count: u64,
}

impl CatRow for PassengerAnalysis {
    open spec fn rkey(self) -> GroupKeyV {
        GroupKeyV::Key(self.passenger_count)
    }

    open spec fn rok(self, itv: Seq<ItemV>, n: int) -> bool {
        &&& self.trip_count == gv_count(itv, self.rkey(), n)
        &&& exists|j: int| 0 <= j < n && (#[trigger] itv[j]).key == self.rkey()
    }

    open spec fn rcount(self) -> int {
        self.trip_count as int
    }
}

impl SortKey for PassengerAnalysis {
    open spec fn le_spec(self, other: PassengerAnalysis) -> bool {
        match (self.passenger_count, other.passenger_count) {
            (Some(x), Some(y)) => x <= y,
            (None, Some(_)) => false,
            (_, None) => true,
        }
    }

    proof fn lemma_total(a: PassengerAnalysis, b: PassengerAnalysis) {
    }

    proof fn lemma_trans(a: PassengerAnalysis, b: PassengerAnalysis, c: PassengerAnalysis) {
    }

    fn le(&self, other: &PassengerAnalysis) -> (r: bool) {
        match (self.passenger_count, other.passenger_count) {
            (Some(x), Some(y)) => x <= y,
            (None, Some(_)) => false,
            (_, None) => true,
        }
    }
}

/// Contribution of an output row to the breakdown's total trip count.
pub open spec fn pc_row_count_f() -> spec_fn(PassengerAnalysis) -> int {
    |row: PassengerAnalysis| row.trip_count as int
}

/// Build the passenger items.
fn pc_build(ds: &Dataset) -> (items: Vec<GroupItem>)
    ensures
        view_items(items@) == pc_items_prefix(*ds, ds.trips@.len() as int),
        items_wf(items@, 0),
        items@.len() == ds.trips@.len(),
{
    let mut items: Vec<GroupItem> = Vec::new();
    let mut i: usize = 0;
    proof {
        assert(view_items(items@) =~= pc_items_prefix(*ds, 0));
    }
    while i < ds.trips.len()
        invariant
            i <= ds.trips@.len(),
            items@.len() == i,
            items_wf(items@, 0),
            view_items(items@) == pc_items_prefix(*ds, i as int),
        decreases ds.trips@.len() - i,
    {
        let t = &ds.trips[i];
        let measures: Vec<Option<i64>> = Vec::new();
        let g = GroupItem { key: GroupKey::Key(t.passenger_count), measures };
        proof {
            assert(g.measures@ =~= Seq::<Option<i64>>::empty());
            assert(view_item(g) == pc_items_prefix(*ds, i as int + 1).last());
            assert(view_items(items@.push(g)) =~= view_items(items@).push(view_item(g)));
            assert(view_items(items@.push(g)) =~= pc_items_prefix(*ds, i as int + 1));
        }
        items.push(g);
        i += 1;
    }
    items
}

/// The unsorted passenger rows.
#[verifier::rlimit(100)]
fn pc_rows(ds: &Dataset) -> (r: Vec<PassengerAnalysis>)
    ensures
        ({
            let itv = pc_items_prefix(*ds, ds.trips@.len() as int);
            let n = ds.trips@.len() as int;
            &&& forall|ri: int| 0 <= ri < r@.len() ==> (#[trigger] r@[ri]).rok(itv, n)
            &&& forall|a: int, b: int|
                0 <= a < b < r@.len() ==> (#[trigger] r@[a]).rkey() != (#[trigger] r@[b]).rkey()
            &&& forall|j: int|
                0 <= j < n ==> exists|ri: int|
                    0 <= ri < r@.len() && (#[trigger] r@[ri]).rkey() == (#[trigger] itv[j]).key
            &&& seq_sum_by(r@, pc_row_count_f()) == n
        }),
{
    let items = pc_build(ds);
    let ghost itv = pc_items_prefix(*ds, ds.trips@.len() as int);
    let ghost n = ds.trips@.len() as int;
    let accs = group_rows(&items, 0);
    let mut out: Vec<PassengerAnalysis> = Vec::new();
    let mut k: usize = 0;
    proof {
        assert(accs@.subrange(0, 0) =~= Seq::<GroupAcc>::empty());
    }
    while k < accs.len()
        invariant
            k <= accs@.len(),
            out@.len() == k,
            itv == view_items(items@),
            itv == pc_items_prefix(*ds, n),
            n == items@.len() as int,
            n == ds.trips@.len() as int,
            group_state_ok(items@, accs@, 0, n),
            forall|w: int| 0 <= w < k ==> (#[trigger] out@[w]).rok(itv, n),
            forall|w: int| 0 <= w < k ==> (#[trigger] out@[w]).rkey() == key_view(accs@[w].key),
            forall|w: int| 0 <= w < k ==> (#[trigger] out@[w]).trip_count == accs@[w].count,
            seq_sum_by(out@, pc_row_count_f()) == seq_sum_by(
                accs@.subrange(0, k as int),
                acc_count_f(),
            ),
        decreases accs@.len() - k,
    {
        let a = &accs[k];
        proof {
            assert(acc_ok(items@, accs@[k as int], 0, n));
            lemma_g_gv(items@, key_view(a.key), 0, n);
            let w0 = choose|w0: int|
                0 <= w0 < n && key_view((#[trigger] items@[w0]).key) == key_view(
                    accs@[k as int].key,
                );
            assert(itv[w0] == view_item(items@[w0]));
            assert(itv[w0].key == key_view(accs@[k as int].key));
            lemma_pc_items_keys(*ds, n);
            assert(key_view(accs@[k as int].key) is Key);
        }
        let row = PassengerAnalysis { passenger_count: i32_of_key(&a.key), trip_count: a.count };
        proof {
            lemma_seq_sum_by_push(out@, pc_row_count_f(), row);
            assert(accs@.subrange(0, k as int + 1).drop_last() =~= accs@.subrange(0, k as int));
            assert(accs@.subrange(0, k as int + 1).last() == accs@[k as int]);
        }
        out.push(row);
        k += 1;
    }
    proof {
        assert(accs@.subrange(0, accs@.len() as int) =~= accs@);
        lemma_rows_complete(items@, accs@, out@, itv, 0, n);
    }
    out
}

/// The passenger-count breakdown: one row per distinct passenger count among
/// the trips (the null count is its own group), counted exactly, ordered by
/// passenger count ascending with the null group last. The trip counts over
/// all rows sum to the number of trips.
pub fn passenger_analysis(ds: &Dataset) -> (r: Vec<PassengerAnalysis>)
    ensures
        ({
            let itv = pc_items_prefix(*ds, ds.trips@.len() as int);
            let n = ds.trips@.len() as int;
            &&& forall|ri: int| 0 <= ri < r@.len() ==> (#[trigger] r@[ri]).rok(itv, n)
            &&& forall|a: int, b: int|
                0 <= a < b < r@.len() ==> (#[trigger] r@[a]).rkey() != (#[trigger] r@[b]).rkey()
            &&& forall|j: int|
                0 <= j < n ==> exists|ri: int|
                    0 <= ri < r@.len() && (#[trigger] r@[ri]).rkey() == (#[trigger] itv[j]).key
            &&& forall|a: int, b: int|
                0 <= a < b < r@.len() ==> #[trigger] r@[a].le_spec(r@[b])
            &&& seq_sum_by(r@, pc_row_count_f()) == n
        }),
{
    let ghost itv = pc_items_prefix(*ds, ds.trips@.len() as int);
    let ghost n = ds.trips@.len() as int;
    let mut out = pc_rows(ds);
    let ghost presort = out@;
    sort_by_key(&mut out);
    proof {
        lemma_cat_transfer(presort, out@, itv, n);
    }
    out
}

/// The hour-of-week items of the first `n` trips: the trips whose pickup
/// timestamp is known, keyed by ISO day of week and hour of day, with no
/// measures.
pub open spec fn hw_items_prefix(ds: Dataset, n: int) -> Seq<ItemV>
    decreases n,
{
    if n <= 0 {
        Seq::empty()
    } else {
        let rest = hw_items_prefix(ds, n - 1);
        match (ds.trips@[n - 1].pickup_weekday, ds.trips@[n - 1].pickup_hour) {
            (Some(d), Some(h)) => rest.push(
                ItemV { key: GroupKeyV::DowHour(d as int, h as int), measures: Seq::empty() },
            ),
            _ => rest,
        }
    }
}

/// Every hour-of-week item key has the right shape.
pub proof fn lemma_hw_items_keys(ds: Dataset, n: int)
    requires
        n >= 0,
    ensures
        hw_items_prefix(ds, n).len() <= n,
        forall|x: int|
            0 <= x < hw_items_prefix(ds, n).len() ==> (#[trigger] hw_items_prefix(ds, n)[x]).key
                is DowHour,
    decreases n,
{
    if n > 0 {
        lemma_hw_items_keys(ds, n - 1);
        assert forall|x: int|
            0 <= x < hw_items_prefix(ds, n).len() implies (#[trigger] hw_items_prefix(
            ds,
            n,
        )[x]).key is DowHour by {
            if x < hw_items_prefix(ds, n - 1).len() {
                assert(hw_items_prefix(ds, n)[x] == hw_items_prefix(ds, n - 1)[x]);
            }
        }
    } else {
        assert(hw_items_prefix(ds, 0) =~= Seq::<ItemV>::empty());
    }
}

/// One row of the hour-of-week activity breakdown.
pub struct HourlyWeekdayActivity {
    pub day_of_week: i32,
    pub hour_of_day: i32,
    pub trip_count: u64,
}

impl CatRow for HourlyWeekdayActivity {
    open spec fn rkey(self) -> GroupKeyV {
        GroupKeyV::DowHour(self.day_of_week as int, self.hour_of_day as int)
    }

    open spec fn rok(self, itv: Seq<ItemV>, n: int) -> bool {
        &&& self.trip_count == gv_count(itv, self.rkey(), n)
        &&& exists|j: int| 0 <= j < n && (#[trigger] itv[j]).key == self.rkey()
    }

    open spec fn rcount(self) -> int {
        self.trip_count as int
    }
}

impl SortKey for HourlyWeekdayActivity {
    open spec fn le_spec(self, other: HourlyWeekdayActivity) -> bool {
        self.day_of_week < other.day_of_week || (self.day_of_week == other.day_of_week
            && self.hour_of_day <= other.hour_of_day)
    }

    proof fn lemma_total(a: HourlyWeekdayActivity, b: HourlyWeekdayActivity) {
    }

    proof fn lemma_trans(
        a: HourlyWeekdayActivity,
        b: HourlyWeekdayActivity,
        c: HourlyWeekdayActivity,
    ) {
    }

    fn le(&self, other: &HourlyWeekdayActivity) -> (r: bool) {
        self.day_of_week < other.day_of_week || (self.day_of_week == other.day_of_week
            && self.hour_of_day <= other.hour_of_day)
    }
}

/// Contribution of an output row to the breakdown's total trip count.
pub open spec fn hw_row_count_f() -> spec_fn(HourlyWeekdayActivity) -> int {
    |row: HourlyWeekdayActivity| row.trip_count as int
}

/// The day and hour inside an hour-of-week group key.
fn dowhour_of_key(k: &GroupKey) -> (r: (i32, i32))
    requires
        key_view(*k) is DowHour,
    ensures
        GroupKeyV::DowHour(r.0 as int, r.1 as int) == key_view(*k),
{
    match k {
        GroupKey::DowHour(d, h) => (*d, *h),
        _ => {
            proof {
                assert(false);
            }
            (0, 0)
        },
    }
}

/// Build the hour-of-week items.
fn hw_build(ds: &Dataset) -> (items: Vec<GroupItem>)
    ensures
        view_items(items@) == hw_items_prefix(*ds, ds.trips@.len() as int),
        items_wf(items@, 0),
{
    let mut items: Vec<GroupItem> = Vec::new();
    let mut i: usize = 0;
    proof {
        assert(view_items(items@) =~= hw_items_prefix(*ds, 0));
    }
    while i < ds.trips.len()
        invariant
            i <= ds.trips@.len(),
            items_wf(items@, 0),
            view_items(items@) == hw_items_prefix(*ds, i as int),
        decreases ds.trips@.len() - i,
    {
        let t = &ds.trips[i];
        match (t.pickup_weekday, t.pickup_hour) {
            (Some(d), Some(h)) => {
                let measures: Vec<Option<i64>> = Vec::new();
                let g = GroupItem { key: GroupKey::DowHour(d, h), measures };
                proof {
                    assert(g.measures@ =~= Seq::<Option<i64>>::empty());
                    assert(view_item(g) == hw_items_prefix(*ds, i as int + 1).last());
                    assert(view_items(items@.push(g)) =~= view_items(items@).push(view_item(g)));
                    assert(view_items(items@.push(g)) =~= hw_items_prefix(*ds, i as int + 1));
                }
                items.push(g);
            },
            _ => {},
        }
        i += 1;
    }
    items
}

/// The unsorted hour-of-week rows.
#[verifier::rlimit(100)]
fn hw_rows(ds: &Dataset) -> (r: Vec<HourlyWeekdayActivity>)
    ensures
        ({
            let itv = hw_items_prefix(*ds, ds.trips@.len() as int);
            &&& forall|ri: int| 0 <= ri < r@.len() ==> (#[trigger] r@[ri]).rok(itv, itv.len() as int)
            &&& forall|a: int, b: int|
                0 <= a < b < r@.len() ==> (#[trigger] r@[a]).rkey() != (#[trigger] r@[b]).rkey()
            &&& forall|j: int|
                0 <= j < itv.len() ==> exists|ri: int|
                    0 <= ri < r@.len() && (#[trigger] r@[ri]).rkey() == (#[trigger] itv[j]).key
            &&& seq_sum_by(r@, hw_row_count_f()) == itv.len()
        }),
{
    let items = hw_build(ds);
    let ghost itv = hw_items_prefix(*ds, ds.trips@.len() as int);
    let ghost n = items@.len() as int;
    let accs = group_rows(&items, 0);
    let mut out: Vec<HourlyWeekdayActivity> = Vec::new();
    let mut k: usize = 0;
    proof {
        assert(accs@.subrange(0, 0) =~= Seq::<GroupAcc>::empty());
    }
    while k < accs.len()
        invariant
            k <= accs@.len(),
            out@.len() == k,
            itv == view_items(items@),
            itv == hw_items_prefix(*ds, ds.trips@.len() as int),
            n == items@.len() as int,
            group_state_ok(items@, accs@, 0, n),
            forall|w: int| 0 <= w < k ==> (#[trigger] out@[w]).rok(itv, n),
            forall|w: int| 0 <= w < k ==> (#[trigger] out@[w]).rkey() == key_view(accs@[w].key),
            forall|w: int| 0 <= w < k ==> (#[trigger] out@[w]).trip_count == accs@[w].count,
            seq_sum_by(out@, hw_row_count_f()) == seq_sum_by(
                accs@.subrange(0, k as int),
                acc_count_f(),
            ),
        decreases accs@.len() - k,
    {
        let a = &accs[k];
        proof {
            assert(acc_ok(items@, accs@[k as int], 0, n));
            lemma_g_gv(items@, key_view(a.key), 0, n);
            let w0 = choose|w0: int|
                0 <= w0 < n && key_view((#[trigger] items@[w0]).key) == key_view(
                    accs@[k as int].key,
                );
            assert(itv[w0] == view_item(items@[w0]));
            assert(itv[w0].key == key_view(accs@[k as int].key));
            lemma_hw_items_keys(*ds, ds.trips@.len() as int);
            assert(key_view(accs@[k as int].key) is DowHour);
        }
        let dh = dowhour_of_key(&a.key);
        let row = HourlyWeekdayActivity {
            day_of_week: dh.0,
            hour_of_day: dh.1,
            trip_count: a.count,
        };
        proof {
            lemma_seq_sum_by_push(out@, hw_row_count_f(), row);
            assert(accs@.subrange(0, k as int + 1).drop_last() =~= accs@.subrange(0, k as int));
            assert(accs@.subrange(0, k as int + 1).last() == accs@[k as int]);
        }
        out.push(row);
        k += 1;
    }
    proof {
        assert(accs@.subrange(0, accs@.len() as int) =~= accs@);
        lemma_rows_complete(items@, accs@, out@, itv, 0, n);
    }
    out
}

/// The hour-of-week activity breakdown: one row per distinct (ISO day of
/// week, hour of day) pair among the trips with a known pickup timestamp,
/// counted exactly and ordered by day then hour ascending. The trip counts
/// over all rows sum to the number of such trips.
pub fn hourly_activity(ds: &Dataset) -> (r: Vec<HourlyWeekdayActivity>)
    ensures
        ({
            let itv = hw_items_prefix(*ds, ds.trips@.len() as int);
            &&& forall|ri: int| 0 <= ri < r@.len() ==> (#[trigger] r@[ri]).rok(itv, itv.len() as int)
            &&& forall|a: int, b: int|
                0 <= a < b < r@.len() ==> (#[trigger] r@[a]).rkey() != (#[trigger] r@[b]).rkey()
            &&& forall|j: int|
                0 <= j < itv.len() ==> exists|ri: int|
                    0 <= ri < r@.len() && (#[trigger] r@[ri]).rkey() == (#[trigger] itv[j]).key
            &&& forall|a: int, b: int|
                0 <= a < b < r@.len() ==> #[trigger] r@[a].le_spec(r@[b])
            &&& seq_sum_by(r@, hw_row_count_f()) == itv.len()
        }),
{
    let ghost itv = hw_items_prefix(*ds, ds.trips@.len() as int);
    let mut out = hw_rows(ds);
    let ghost presort = out@;
    sort_by_key(&mut out);
    proof {
        lemma_cat_transfer(presort, out@, itv, itv.len() as int);
    }
    out
}

/// Group key of a trip in the zone-activity breakdown: the id, zone and
/// borough of the pickup location row it joins to, or the all-null group.
pub open spec fn zone_group_key(ds: Dataset, t: TripFact) -> GroupKeyV {
    match t.pickup_location_key {
        Some(k) => match find_location(ds.locations@, k) {
            Some(row) => GroupKeyV::Zone(
                row.location_id,
                view_opt_str(row.zone),
                view_opt_str(row.borough),
            ),
            None => GroupKeyV::Zone(None, None, None),
        },
        None => GroupKeyV::Zone(None, None, None),
    }
}

/// The zone items of the first `n` trips: every trip, keyed by its pickup
/// location's descriptive columns, with total amount as the single measure.
pub open spec fn zn_items_prefix(ds: Dataset, n: int) -> Seq<ItemV>
    decreases n,
{
    if n <= 0 {
        Seq::empty()
    } else {
        zn_items_prefix(ds, n - 1).push(
            ItemV {
                key: zone_group_key(ds, ds.trips@[n - 1]),
                measures: seq![ds.trips@[n - 1].total_amount],
            },
        )
    }
}

/// Every zone item key has the right shape.
pub proof fn lemma_zn_items_keys(ds: Dataset, n: int)
    requires
        n >= 0,
    ensures
        zn_items_prefix(ds, n).len() == n,
        forall|x: int| 0 <= x < n ==> (#[trigger] zn_items_prefix(ds, n)[x]).key is Zone,
    decreases n,
{
    if n > 0 {
        lemma_zn_items_keys(ds, n - 1);
        assert forall|x: int|
            0 <= x < n implies (#[trigger] zn_items_prefix(ds, n)[x]).key is Zone by {
            if x < n - 1 {
                assert(zn_items_prefix(ds, n)[x] == zn_items_prefix(ds, n - 1)[x]);
            }
        }
    } else {
        assert(zn_items_prefix(ds, 0) =~= Seq::<ItemV>::empty());
    }
}

/// One row of the zone-activity breakdown.
pub struct ZoneActivity {
    pub location_id: Option<i32>,
    pub zone: Option<String>,
    pub borough: Option<String>,
    pub trip_count: u64,
    pub avg_total_amount: Frac,
}

impl CatRow for ZoneActivity {
    open spec fn rkey(self) -> GroupKeyV {
        GroupKeyV::Zone(self.location_id, view_opt_str(self.zone), view_opt_str(self.borough))
    }

    open spec fn rok(self, itv: Seq<ItemV>, n: int) -> bool {
        &&& self.trip_count == gv_count(itv, self.rkey(), n)
        &&& self.avg_total_amount == avg_frac(
            gv_sum(itv, self.rkey(), 0, n),
            gv_cnt(itv, self.rkey(), 0, n),
        )
        &&& exists|j: int| 0 <= j < n && (#[trigger] itv[j]).key == self.rkey()
    }

    open spec fn rcount(self) -> int {
        self.trip_count as int
    }
}

impl SortKey for ZoneActivity {
    open spec fn le_spec(self, other: ZoneActivity) -> bool {
        self.trip_count >= other.trip_count
    }

    proof fn lemma_total(a: ZoneActivity, b: ZoneActivity) {
    }

    proof fn lemma_trans(a: ZoneActivity, b: ZoneActivity, c: ZoneActivity) {
    }

    fn le(&self, other: &ZoneActivity) -> (r: bool) {
        self.trip_count >= other.trip_count
    }
}

/// Contribution of an output row to the breakdown's total trip count.
pub open spec fn zn_row_count_f() -> spec_fn(ZoneActivity) -> int {
    |row: ZoneActivity| row.trip_count as int
}

/// The columns inside a zone group key.
fn zone_of_key(k: &GroupKey) -> (r: (Option<i32>, Option<String>, Option<String>))
    requires
        key_view(*k) is Zone,
    ensures
        GroupKeyV::Zone(r.0, view_opt_str(r.1), view_opt_str(r.2)) == key_view(*k),
{
    match k {
        GroupKey::Zone(i, z, b) => (*i, clone_opt_string(z), clone_opt_string(b)),
        _ => {
            proof {
                assert(false);
            }
            (None, None, None)
        },
    }
}

/// Build the zone items.
fn zn_build(ds: &Dataset) -> (items: Vec<GroupItem>)
    ensures
        view_items(items@) == zn_items_prefix(*ds, ds.trips@.len() as int),
        items_wf(items@, 1),
        items@.len() == ds.trips@.len(),
{
    let mut items: Vec<GroupItem> = Vec::new();
    let mut i: usize = 0;
    proof {
        assert(view_items(items@) =~= zn_items_prefix(*ds, 0));
    }
    while i < ds.trips.len()
        invariant
            i <= ds.trips@.len(),
            items@.len() == i,
            items_wf(items@, 1),
            view_items(items@) == zn_items_prefix(*ds, i as int),
        decreases ds.trips@.len() - i,
    {
        let t = &ds.trips[i];
        let key: GroupKey = match t.pickup_location_key {
            Some(k) => match lookup_location(&ds.locations, k) {
                Some(idx) => {
                    let row = &ds.locations[idx];
                    GroupKey::Zone(
                        row.location_id,
                        clone_opt_string(&row.zone),
                        clone_opt_string(&row.borough),
                    )
                },
                None => GroupKey::Zone(None, None, None),
            },
            None => GroupKey::Zone(None, None, None),
        };
        let mut measures: Vec<Option<i64>> = Vec::new();
        measures.push(t.total_amount);
        let g = GroupItem { key, measures };
        proof {
            assert(g.measures@ =~= seq![ds.trips@[i as int].total_amount]);
            assert(view_item(g) == zn_items_prefix(*ds, i as int + 1).last());
            assert(view_items(items@.push(g)) =~= view_items(items@).push(view_item(g)));
            assert(view_items(items@.push(g)) =~= zn_items_prefix(*ds, i as int + 1));
        }
        items.push(g);
        i += 1;
    }
    items
}

/// The unsorted zone rows.
#[verifier::rlimit(100)]
fn zn_rows(ds: &Dataset) -> (r: Vec<ZoneActivity>)
    ensures
        ({
            let itv = zn_items_prefix(*ds, ds.trips@.len() as int);
            let n = ds.trips@.len() as int;
            &&& forall|ri: int| 0 <= ri < r@.len() ==> (#[trigger] r@[ri]).rok(itv, n)
            &&& forall|a: int, b: int|
                0 <= a < b < r@.len() ==> (#[trigger] r@[a]).rkey() != (#[trigger] r@[b]).rkey()
            &&& forall|j: int|
                0 <= j < n ==> exists|ri: int|
                    0 <= ri < r@.len() && (#[trigger] r@[ri]).rkey() == (#[trigger] itv[j]).key
            &&& seq_sum_by(r@, zn_row_count_f()) == n
        }),
{
    let items = zn_build(ds);
    let ghost itv = zn_items_prefix(*ds, ds.trips@.len() as int);
    let ghost n = ds.trips@.len() as int;
    let accs = group_rows(&items, 1);
    let mut out: Vec<ZoneActivity> = Vec::new();
    let mut k: usize = 0;
    proof {
        assert(accs@.subrange(0, 0) =~= Seq::<GroupAcc>::empty());
    }
    while k < accs.len()
        invariant
            k <= accs@.len(),
            out@.len() == k,
            itv == view_items(items@),
            itv == zn_items_prefix(*ds, n),
            n == items@.len() as int,
            n == ds.trips@.len() as int,
            group_state_ok(items@, accs@, 1, n),
            forall|w: int| 0 <= w < k ==> (#[trigger] out@[w]).rok(itv, n),
            forall|w: int| 0 <= w < k ==> (#[trigger] out@[w]).rkey() == key_view(accs@[w].key),
            forall|w: int| 0 <= w < k ==> (#[trigger] out@[w]).trip_count == accs@[w].count,
            seq_sum_by(out@, zn_row_count_f()) == seq_sum_by(
                accs@.subrange(0, k as int),
                acc_count_f(),
            ),
        decreases accs@.len() - k,
    {
        let a = &accs[k];
        proof {
            assert(acc_ok(items@, accs@[k as int], 1, n));
            assert(acc_bounded(accs@[k as int], 1, n));
            lemma_g_gv(items@, key_view(a.key), 0, n);
            let w0 = choose|w0: int|
                0 <= w0 < n && key_view((#[trigger] items@[w0]).key) == key_view(
                    accs@[k as int].key,
                );
            assert(itv[w0] == view_item(items@[w0]));
            assert(itv[w0].key == key_view(accs@[k as int].key));
            lemma_zn_items_keys(*ds, n);
            assert(key_view(accs@[k as int].key) is Zone);
        }
        let zk = zone_of_key(&a.key);
        let row = ZoneActivity {
            location_id: zk.0,
            zone: zk.1,
            borough: zk.2,
            trip_count: a.count,
            avg_total_amount: make_avg(a.sums[0], a.cnts[0]),
        };
        proof {
            lemma_seq_sum_by_push(out@, zn_row_count_f(), row);
            assert(accs@.subrange(0, k as int + 1).drop_last() =~= accs@.subrange(0, k as int));
            assert(accs@.subrange(0, k as int + 1).last() == accs@[k as int]);
        }
        out.push(row);
        k += 1;
    }
    proof {
        assert(accs@.subrange(0, accs@.len() as int) =~= accs@);
        lemma_rows_complete(items@, accs@, out@, itv, 1, n);
    }
    out
}

/// The zone-activity breakdown: one row per distinct pickup-location group
/// among the trips, counted and averaged exactly, ordered by trip count
/// descending (ties keep first-seen order). The trip counts over all rows
/// sum to the number of trips.
pub fn zone_activity(ds: &Dataset) -> (r: Vec<ZoneActivity>)
    ensures
        ({
            let itv = zn_items_prefix(*ds, ds.trips@.len() as int);
            let n = ds.trips@.len() as int;
            &&& forall|ri: int| 0 <= ri < r@.len() ==> (#[trigger] r@[ri]).rok(itv, n)
            &&& forall|a: int, b: int|
                0 <= a < b < r@.len() ==> (#[trigger] r@[a]).rkey() != (#[trigger] r@[b]).rkey()
            &&& forall|j: int|
                0 <= j < n ==> exists|ri: int|
                    0 <= ri < r@.len() && (#[trigger] r@[ri]).rkey() == (#[trigger] itv[j]).key
            &&& forall|a: int, b: int|
                0 <= a < b < r@.len() ==> (#[trigger] r@[a]).trip_count >= (
                #[trigger] r@[b]).trip_count
            &&& seq_sum_by(r@, zn_row_count_f()) == n
        }),
{
    let ghost itv = zn_items_prefix(*ds, ds.trips@.len() as int);
    let ghost n = ds.trips@.len() as int;
    let mut out = zn_rows(ds);
    let ghost presort = out@;
    sort_by_key(&mut out);
    proof {
        lemma_cat_transfer(presort, out@, itv, n);
        assert forall|a: int, b: int|
            0 <= a < b < out@.len() implies (#[trigger] out@[a]).trip_count >= (
        #[trigger] out@[b]).trip_count by {
            assert(out@[a].le_spec(out@[b]));
        }
    }
    out
}

} // verus!
