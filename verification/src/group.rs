//! The grouping engine all catalog entries share. An entry turns each
//! qualifying trip into an item: a group key plus a fixed-width vector of
//! nullable measures. The engine produces one accumulator row per distinct
//! key, holding the group's trip count and, for every measure, the sum and
//! the number of the non-null values — exactly what the entry needs to report
//! exact averages. Rows come out in first-seen order; entries sort them
//! afterwards. The row counts always sum to the number of items.
use vstd::prelude::*;
use crate::data::{Date, view_opt_str, opt_str_eq, opt_i32_eq, clone_opt_string};
use crate::seqsum::{seq_sum_by, lemma_seq_sum_by_push, lemma_seq_sum_by_update};

verus! {

/// A group key: one variant per key shape the catalog uses.
pub enum GroupKey {
    /// A nullable dimension name (payment types, rate codes).
    Name(Option<String>),
    /// A nullable integer (vendor surrogate key, passenger count).
    Key(Option<i32>),
    /// ISO day of week and hour of day.
    DowHour(i32, i32),
    /// A calendar day.
    Day(Date),
    /// A calendar month, held as its first day.
    Month(Date),
    /// Pickup and dropoff borough names.
    Boroughs(String, String),
    /// Location id, zone and borough of a pickup location.
    Zone(Option<i32>, Option<String>, Option<String>),
}

/// The mathematical value of a group key: strings become character
/// sequences.
pub enum GroupKeyV {
    Name(Option<Seq<char>>),
    Key(Option<i32>),
    DowHour(int, int),
    Day(Date),
    Month(Date),
    Boroughs(Seq<char>, Seq<char>),
    Zone(Option<i32>, Option<Seq<char>>, Option<Seq<char>>),
}

/// The value of a key.
pub open spec fn key_view(k: GroupKey) -> GroupKeyV {
    match k {
        GroupKey::Name(n) => GroupKeyV::Name(view_opt_str(n)),
        GroupKey::Key(x) => GroupKeyV::Key(x),
        GroupKey::DowHour(d, h) => GroupKeyV::DowHour(d as int, h as int),
        GroupKey::Day(d) => GroupKeyV::Day(d),
        GroupKey::Month(d) => GroupKeyV::Month(d),
        GroupKey::Boroughs(p, q) => GroupKeyV::Boroughs(p@, q@),
        GroupKey::Zone(i, z, b) => GroupKeyV::Zone(i, view_opt_str(z), view_opt_str(b)),
    }
}

/// Equality of keys, by value.
pub fn key_eq(a: &GroupKey, b: &GroupKey) -> (r: bool)
    ensures
        r == (key_view(*a) == key_view(*b)),
{
    match (a, b) {
        (GroupKey::Name(x), GroupKey::Name(y)) => opt_str_eq(x, y),
        (GroupKey::Key(x), GroupKey::Key(y)) => opt_i32_eq(x, y),
        (GroupKey::DowHour(d1, h1), GroupKey::DowHour(d2, h2)) => *d1 == *d2 && *h1 == *h2,
        (GroupKey::Day(x), GroupKey::Day(y)) => *x == *y,
        (GroupKey::Month(x), GroupKey::Month(y)) => *x == *y,
        (GroupKey::Boroughs(p1, q1), GroupKey::Boroughs(p2, q2)) => p1.eq(p2) && q1.eq(q2),
        (GroupKey::Zone(i1, z1, b1), GroupKey::Zone(i2, z2, b2)) => opt_i32_eq(i1, i2)
            && opt_str_eq(z1, z2) && opt_str_eq(b1, b2),
        _ => false,
    }
}

/// A copy of a key, with the same value.
pub fn key_clone(a: &GroupKey) -> (r: GroupKey)
    ensures
        key_view(r) == key_view(*a),
{
    match a {
        GroupKey::Name(x) => GroupKey::Name(clone_opt_string(x)),
        GroupKey::Key(x) => GroupKey::Key(*x),
        GroupKey::DowHour(d, h) => GroupKey::DowHour(*d, *h),
        GroupKey::Day(x) => GroupKey::Day(*x),
        GroupKey::Month(x) => GroupKey::Month(*x),
        GroupKey::Boroughs(p, q) => GroupKey::Boroughs(p.clone(), q.clone()),
        GroupKey::Zone(i, z, b) => GroupKey::Zone(*i, clone_opt_string(z), clone_opt_string(b)),
    }
}

/// One grouping item: a trip reduced to its group key and its measures.
pub struct GroupItem {
    pub key: GroupKey,
    pub measures: Vec<Option<i64>>,
}

/// Every item carries exactly `m` measures.
pub open spec fn items_wf(items: Seq<GroupItem>, m: int) -> bool {
    forall|idx: int| 0 <= idx < items.len() ==> (#[trigger] items[idx]).measures@.len() == m
}

/// Number of the first `n` items in the group `kv`.
pub open spec fn g_count(items: Seq<GroupItem>, kv: GroupKeyV, n: int) -> int
    decreases n,
{
    if n <= 0 {
        0
    } else {
        g_count(items, kv, n - 1) + if key_view(items[n - 1].key) == kv {
            1int
        } else {
            0int
        }
    }
}

/// Sum of the non-null measure `mj` over the first `n` items in the group.
pub open spec fn g_sum(items: Seq<GroupItem>, kv: GroupKeyV, mj: int, n: int) -> int
    decreases n,
{
    if n <= 0 {
        0
    } else {
        g_sum(items, kv, mj, n - 1) + if key_view(items[n - 1].key) == kv {
            match items[n - 1].measures@[mj] {
                Some(v) => v as int,
                None => 0,
            }
        } else {
            0
        }
    }
}

/// Number of the first `n` items in the group with measure `mj` non-null.
pub open spec fn g_cnt(items: Seq<GroupItem>, kv: GroupKeyV, mj: int, n: int) -> int
    decreases n,
{
    if n <= 0 {
        0
    } else {
        g_cnt(items, kv, mj, n - 1) + if key_view(items[n - 1].key) == kv && items[n
            - 1].measures@[mj] is Some {
            1int
        } else {
            0int
        }
    }
}

/// The mathematical value of an item.
pub struct ItemV {
    pub key: GroupKeyV,
    pub measures: Seq<Option<i64>>,
}

/// The value of an item.
pub open spec fn view_item(it: GroupItem) -> ItemV {
    ItemV { key: key_view(it.key), measures: it.measures@ }
}

/// The values of a sequence of items.
pub open spec fn view_items(items: Seq<GroupItem>) -> Seq<ItemV> {
    items.map_values(|it: GroupItem| view_item(it))
}

/// Number of the first `n` item values in the group `kv`.
pub open spec fn gv_count(items: Seq<ItemV>, kv: GroupKeyV, n: int) -> int
    decreases n,
{
    if n <= 0 {
        0
    } else {
        gv_count(items, kv, n - 1) + if items[n - 1].key == kv {
            1int
        } else {
            0int
        }
    }
}

/// Sum of the non-null measure `mj` over the first `n` item values in the
/// group.
pub open spec fn gv_sum(items: Seq<ItemV>, kv: GroupKeyV, mj: int, n: int) -> int
    decreases n,
{
    if n <= 0 {
        0
    } else {
        gv_sum(items, kv, mj, n - 1) + if items[n - 1].key == kv {
            match items[n - 1].measures[mj] {
                Some(v) => v as int,
                None => 0,
            }
        } else {
            0
        }
    }
}

/// Number of the first `n` item values in the group with measure `mj`
/// non-null.
pub open spec fn gv_cnt(items: Seq<ItemV>, kv: GroupKeyV, mj: int, n: int) -> int
    decreases n,
{
    if n <= 0 {
        0
    } else {
        gv_cnt(items, kv, mj, n - 1) + if items[n - 1].key == kv && items[n - 1].measures[mj]
            is Some {
            1int
        } else {
            0int
        }
    }
}

/// The aggregates over items agree with those over their values.
pub proof fn lemma_g_gv(items: Seq<GroupItem>, kv: GroupKeyV, mj: int, n: int)
    requires
        n <= items.len(),
    ensures
        g_count(items, kv, n) == gv_count(view_items(items), kv, n),
        g_sum(items, kv, mj, n) == gv_sum(view_items(items), kv, mj, n),
        g_cnt(items, kv, mj, n) == gv_cnt(view_items(items), kv, mj, n),
    decreases n,
{
    if n > 0 {
        lemma_g_gv(items, kv, mj, n - 1);
        assert(view_items(items)[n - 1] == view_item(items[n - 1]));
    }
}

/// A group's item count lies between zero and the number of items.
pub proof fn lemma_gv_count_bounds(items: Seq<ItemV>, kv: GroupKeyV, n: int)
    requires
        n >= 0,
    ensures
        0 <= gv_count(items, kv, n) <= n,
    decreases n,
{
    if n > 0 {
        lemma_gv_count_bounds(items, kv, n - 1);
    }
}

/// A group no item value of the first `n` belongs to has empty aggregates.
pub proof fn lemma_gv_zero(items: Seq<ItemV>, kv: GroupKeyV, mj: int, n: int)
    requires
        forall|j: int| 0 <= j < n ==> (#[trigger] items[j]).key != kv,
    ensures
        gv_count(items, kv, n) == 0,
        gv_sum(items, kv, mj, n) == 0,
        gv_cnt(items, kv, mj, n) == 0,
    decreases n,
{
    if n > 0 {
        lemma_gv_zero(items, kv, mj, n - 1);
    }
}

/// A group no item of the first `n` belongs to has empty aggregates.
pub proof fn lemma_g_zero(items: Seq<GroupItem>, kv: GroupKeyV, mj: int, n: int)
    requires
        forall|j: int| 0 <= j < n ==> key_view((#[trigger] items[j]).key) != kv,
    ensures
        g_count(items, kv, n) == 0,
        g_sum(items, kv, mj, n) == 0,
        g_cnt(items, kv, mj, n) == 0,
    decreases n,
{
    if n > 0 {
        lemma_g_zero(items, kv, mj, n - 1);
    }
}

/// One group's accumulator: its key, its item count, and per measure the sum
/// and count of the non-null values.
pub struct GroupAcc {
    pub key: GroupKey,
    pub count: u64,
    pub sums: Vec<i128>,
    pub cnts: Vec<u64>,
}

/// Contribution of an accumulator row to the total item count.
pub open spec fn acc_count_f() -> spec_fn(GroupAcc) -> int {
    |a: GroupAcc| a.count as int
}

/// The aggregates of `a` are those of its group over the first `n` items,
/// and its group occurs among them.
pub open spec fn acc_ok(items: Seq<GroupItem>, a: GroupAcc, m: int, n: int) -> bool {
    &&& a.sums@.len() == m
    &&& a.cnts@.len() == m
    &&& a.count == g_count(items, key_view(a.key), n)
    &&& forall|mj: int|
        0 <= mj < m ==> (#[trigger] a.sums@[mj]) == g_sum(items, key_view(a.key), mj, n)
    &&& forall|mj: int|
        0 <= mj < m ==> (#[trigger] a.cnts@[mj]) == g_cnt(items, key_view(a.key), mj, n)
    &&& exists|j: int| 0 <= j < n && key_view((#[trigger] items[j]).key) == key_view(a.key)
}

/// Machine bounds of an accumulator after `n` items.
pub open spec fn acc_bounded(a: GroupAcc, m: int, n: int) -> bool {
    &&& a.count <= n
    &&& forall|mj: int| 0 <= mj < m ==> (#[trigger] a.cnts@[mj]) <= n
    &&& forall|mj: int|
        0 <= mj < m ==> -n * 0x8000_0000_0000_0000 <= (#[trigger] a.sums@[mj]) <= n
            * 0x7fff_ffff_ffff_ffff
}

/// The full grouping invariant after the first `n` items: every accumulator
/// is exact and bounded, keys are pairwise distinct, every seen key has its
/// row, and the counts sum to `n`.
pub open spec fn group_state_ok(items: Seq<GroupItem>, accs: Seq<GroupAcc>, m: int, n: int) -> bool {
    &&& forall|ri: int|
        0 <= ri < accs.len() ==> acc_ok(items, #[trigger] accs[ri], m, n) && acc_bounded(
            accs[ri],
            m,
            n,
        )
    &&& forall|a: int, b: int|
        0 <= a < b < accs.len() ==> key_view((#[trigger] accs[a]).key) != key_view(
            (#[trigger] accs[b]).key,
        )
    &&& forall|j: int|
        0 <= j < n ==> exists|ri: int|
            0 <= ri < accs.len() && key_view((#[trigger] accs[ri]).key) == key_view(
                #[trigger] items[j].key,
            )
    &&& seq_sum_by(accs, acc_count_f()) == n
}


/// Updating the matching row's accumulator carries the grouping invariant
/// over one more item.
#[verifier::rlimit(100)]
proof fn lemma_state_update(
    items: Seq<GroupItem>,
    before: Seq<GroupAcc>,
    after: Seq<GroupAcc>,
    a: GroupAcc,
    idx: int,
    m: int,
    i: int,
)
    requires
        0 <= i < items.len(),
        group_state_ok(items, before, m, i),
        0 <= idx < before.len(),
        after == before.update(idx, a),
        key_view(before[idx].key) == key_view(items[i].key),
        key_view(a.key) == key_view(items[i].key),
        acc_ok(items, a, m, i + 1),
        acc_bounded(a, m, i + 1),
        a.count == before[idx].count + 1,
    ensures
        group_state_ok(items, after, m, i + 1),
{
    let kv = key_view(items[i].key);
    assert forall|rj: int|
        0 <= rj < after.len() implies acc_ok(items, #[trigger] after[rj], m, i + 1) && acc_bounded(
        after[rj],
        m,
        i + 1,
    ) by {
        if rj != idx {
            assert(after[rj] == before[rj]);
            assert(acc_ok(items, before[rj], m, i));
            assert(key_view(before[rj].key) != kv);
            assert forall|w: int|
                0 <= w < m implies (#[trigger] after[rj].sums@[w]) == g_sum(
                items,
                key_view(after[rj].key),
                w,
                i + 1,
            ) by {
                assert(after[rj].sums@[w] == g_sum(items, key_view(after[rj].key), w, i));
            }
            assert forall|w: int|
                0 <= w < m implies (#[trigger] after[rj].cnts@[w]) == g_cnt(
                items,
                key_view(after[rj].key),
                w,
                i + 1,
            ) by {
                assert(after[rj].cnts@[w] == g_cnt(items, key_view(after[rj].key), w, i));
            }
        }
    }
    assert forall|x: int, y: int|
        0 <= x < y < after.len() implies key_view((#[trigger] after[x]).key) != key_view(
        (#[trigger] after[y]).key,
    ) by {
        assert(key_view(after[x].key) == key_view(before[x].key));
        assert(key_view(after[y].key) == key_view(before[y].key));
    }
    assert forall|j: int|
        0 <= j < i + 1 implies exists|ri2: int|
        0 <= ri2 < after.len() && key_view((#[trigger] after[ri2]).key) == key_view(
            #[trigger] items[j].key,
        ) by {
        if j < i {
            let w = choose|w: int|
                0 <= w < before.len() && key_view((#[trigger] before[w]).key) == key_view(
                    items[j].key,
                );
            if w == idx {
                assert(key_view(after[idx].key) == key_view(items[j].key));
            } else {
                assert(key_view(after[w].key) == key_view(items[j].key));
            }
        } else {
            assert(key_view(after[idx].key) == key_view(items[j].key));
        }
    }
    lemma_seq_sum_by_update(before, acc_count_f(), idx, a);
}

/// Appending a fresh row for an unseen key carries the grouping invariant
/// over one more item.
#[verifier::rlimit(100)]
proof fn lemma_state_push(
    items: Seq<GroupItem>,
    before: Seq<GroupAcc>,
    after: Seq<GroupAcc>,
    a: GroupAcc,
    m: int,
    i: int,
)
    requires
        0 <= i < items.len(),
        group_state_ok(items, before, m, i),
        after == before.push(a),
        key_view(a.key) == key_view(items[i].key),
        forall|ri: int|
            0 <= ri < before.len() ==> key_view((#[trigger] before[ri]).key) != key_view(
                items[i].key,
            ),
        acc_ok(items, a, m, i + 1),
        acc_bounded(a, m, i + 1),
        a.count == 1,
    ensures
        group_state_ok(items, after, m, i + 1),
{
    let kv = key_view(items[i].key);
    assert forall|j: int|
        0 <= j < i implies key_view((#[trigger] items[j]).key) != kv by {
        if key_view(items[j].key) == kv {
            let w = choose|w: int|
                0 <= w < before.len() && key_view((#[trigger] before[w]).key) == key_view(
                    items[j].key,
                );
        }
    }
    assert forall|rj: int|
        0 <= rj < after.len() implies acc_ok(items, #[trigger] after[rj], m, i + 1) && acc_bounded(
        after[rj],
        m,
        i + 1,
    ) by {
        if rj < after.len() - 1 {
            assert(after[rj] == before[rj]);
            assert(acc_ok(items, before[rj], m, i));
            assert(key_view(before[rj].key) != kv);
            assert forall|w: int|
                0 <= w < m implies (#[trigger] after[rj].sums@[w]) == g_sum(
                items,
                key_view(after[rj].key),
                w,
                i + 1,
            ) by {
                assert(after[rj].sums@[w] == g_sum(items, key_view(after[rj].key), w, i));
            }
            assert forall|w: int|
                0 <= w < m implies (#[trigger] after[rj].cnts@[w]) == g_cnt(
                items,
                key_view(after[rj].key),
                w,
                i + 1,
            ) by {
                assert(after[rj].cnts@[w] == g_cnt(items, key_view(after[rj].key), w, i));
            }
        } else {
            assert(after[rj] == a);
        }
    }
    assert forall|x: int, y: int|
        0 <= x < y < after.len() implies key_view((#[trigger] after[x]).key) != key_view(
        (#[trigger] after[y]).key,
    ) by {
        if y < after.len() - 1 {
            assert(after[x] == before[x] && after[y] == before[y]);
        } else {
            assert(after[x] == before[x] && after[y] == a);
        }
    }
    assert forall|j: int|
        0 <= j < i + 1 implies exists|ri2: int|
        0 <= ri2 < after.len() && key_view((#[trigger] after[ri2]).key) == key_view(
            #[trigger] items[j].key,
        ) by {
        if j < i {
            let w = choose|w: int|
                0 <= w < before.len() && key_view((#[trigger] before[w]).key) == key_view(
                    items[j].key,
                );
            assert(key_view(after[w].key) == key_view(items[j].key));
        } else {
            assert(key_view(after[after.len() - 1].key) == key_view(items[j].key));
        }
    }
    lemma_seq_sum_by_push(before, acc_count_f(), a);
}

/// A key no accumulator row holds is a key no processed item had.
proof fn lemma_unseen_key(items: Seq<GroupItem>, accs: Seq<GroupAcc>, m: int, i: int)
    requires
        group_state_ok(items, accs, m, i),
        0 <= i < items.len(),
        forall|ri: int|
            0 <= ri < accs.len() ==> key_view((#[trigger] accs[ri]).key) != key_view(items[i].key),
    ensures
        forall|j: int|
            0 <= j < i ==> key_view((#[trigger] items[j]).key) != key_view(items[i].key),
{
    assert forall|j: int|
        0 <= j < i implies key_view((#[trigger] items[j]).key) != key_view(items[i].key) by {
        if key_view(items[j].key) == key_view(items[i].key) {
            let w = choose|w: int|
                0 <= w < accs.len() && key_view((#[trigger] accs[w]).key) == key_view(
                    items[j].key,
                );
        }
    }
}

/// Index of the accumulator row of `key`, if any.
fn find_group_row(accs: &Vec<GroupAcc>, key: &GroupKey) -> (r: Option<usize>)
    ensures
        match r {
            Some(x) => x < accs@.len() && key_view(accs@[x as int].key) == key_view(*key),
            None => forall|ri: int|
                0 <= ri < accs@.len() ==> key_view((#[trigger] accs@[ri]).key) != key_view(*key),
        },
{
    let mut ri: usize = 0;
    while ri < accs.len()
        invariant
            ri <= accs@.len(),
            forall|w: int| 0 <= w < ri ==> key_view((#[trigger] accs@[w]).key) != key_view(*key),
        decreases accs@.len() - ri,
    {
        if key_eq(&accs[ri].key, key) {
            return Some(ri);
        }
        ri += 1;
    }
    None
}

/// A fresh accumulator for the group of item `i`, holding that item alone.
fn acc_new(items: &Vec<GroupItem>, i: usize, m: usize) -> (a: GroupAcc)
    requires
        i < items@.len(),
        items@[i as int].measures@.len() == m,
        forall|j: int| 0 <= j < i ==> key_view((#[trigger] items@[j]).key) != key_view(
            items@[i as int].key,
        ),
    ensures
        acc_ok(items@, a, m as int, i as int + 1),
        acc_bounded(a, m as int, i as int + 1),
        key_view(a.key) == key_view(items@[i as int].key),
        a.count == 1,
{
    let item = &items[i];
    let key = key_clone(&item.key);
    let mut sums: Vec<i128> = Vec::new();
    let mut cnts: Vec<u64> = Vec::new();
    let mut mj: usize = 0;
    while mj < m
        invariant
            mj <= m,
            i < items@.len(),
            items@[i as int].measures@.len() == m,
            *item == items@[i as int],
            sums@.len() == mj,
            cnts@.len() == mj,
            forall|w: int|
                0 <= w < mj ==> (#[trigger] sums@[w]) == (match items@[i as int].measures@[w] {
                    Some(v) => v as int,
                    None => 0int,
                }),
            forall|w: int|
                0 <= w < mj ==> (#[trigger] cnts@[w]) == (if items@[i as int].measures@[w]
                    is Some {
                    1int
                } else {
                    0int
                }),
        decreases m - mj,
    {
        match item.measures[mj] {
            Some(v) => {
                sums.push(v as i128);
                cnts.push(1);
            },
            None => {
                sums.push(0);
                cnts.push(0);
            },
        }
        mj += 1;
    }
    let a = GroupAcc { key, count: 1, sums, cnts };
    proof {
        let n1 = i as int + 1;
        let kv = key_view(a.key);
        assert forall|w: int|
            0 <= w < m implies (#[trigger] a.sums@[w]) == g_sum(items@, kv, w, n1) && -n1
            * 0x8000_0000_0000_0000 <= a.sums@[w] <= n1 * 0x7fff_ffff_ffff_ffff by {
            lemma_g_zero(items@, kv, w, i as int);
            assert(-n1 * 0x8000_0000_0000_0000 <= -0x8000_0000_0000_0000) by (nonlinear_arith)
                requires
                    n1 >= 1,
            ;
            assert(0x7fff_ffff_ffff_ffff <= n1 * 0x7fff_ffff_ffff_ffff) by (nonlinear_arith)
                requires
                    n1 >= 1,
            ;
        }
        assert forall|w: int|
            0 <= w < m implies (#[trigger] a.cnts@[w]) == g_cnt(items@, kv, w, n1) && a.cnts@[w]
            <= n1 by {
            lemma_g_zero(items@, kv, w, i as int);
        }
        lemma_g_zero(items@, kv, 0, i as int);
        assert(key_view(items@[n1 - 1].key) == kv);
    }
    a
}

/// Add item `i` to the accumulator of its group.
#[verifier::rlimit(100)]
fn acc_add(a: &mut GroupAcc, items: &Vec<GroupItem>, i: usize, m: usize)
    requires
        i < items@.len(),
        items@[i as int].measures@.len() == m,
        key_view(old(a).key) == key_view(items@[i as int].key),
        acc_ok(items@, *old(a), m as int, i as int),
        acc_bounded(*old(a), m as int, i as int),
        i < usize::MAX,
    ensures
        acc_ok(items@, *final(a), m as int, i as int + 1),
        acc_bounded(*final(a), m as int, i as int + 1),
        key_view(final(a).key) == key_view(old(a).key),
        final(a).count == old(a).count + 1,
{
    proof {
        assert((-(i as int) - 1) * 0x8000_0000_0000_0000 == -(i as int) * 0x8000_0000_0000_0000
            - 0x8000_0000_0000_0000) by (nonlinear_arith);
        assert(((i as int) + 1) * 0x7fff_ffff_ffff_ffff == (i as int) * 0x7fff_ffff_ffff_ffff
            + 0x7fff_ffff_ffff_ffff) by (nonlinear_arith);
    }
    a.count = a.count + 1;
    let item = &items[i];
    let ghost kv = key_view(a.key);
    let ghost oldsums = a.sums@;
    let ghost oldcnts = a.cnts@;
    let mut mj: usize = 0;
    while mj < m
        invariant
            mj <= m,
            i < items@.len(),
            i < usize::MAX,
            items@[i as int].measures@.len() == m,
            *item == items@[i as int],
            kv == key_view(items@[i as int].key),
            a.key == old(a).key,
            a.count == old(a).count + 1,
            kv == key_view(a.key),
            a.sums@.len() == m,
            a.cnts@.len() == m,
            oldsums.len() == m,
            oldcnts.len() == m,
            forall|w: int|
                0 <= w < m ==> (#[trigger] oldsums[w]) == g_sum(items@, kv, w, i as int),
            forall|w: int| 0 <= w < m ==> (#[trigger] oldcnts[w]) == g_cnt(items@, kv, w, i as int),
            forall|w: int| 0 <= w < m ==> (#[trigger] oldcnts[w]) <= i,
            forall|w: int|
                0 <= w < m ==> -(i as int) * 0x8000_0000_0000_0000 <= (#[trigger] oldsums[w]) <= (
                i as int) * 0x7fff_ffff_ffff_ffff,
            forall|w: int| mj <= w < m ==> (#[trigger] a.sums@[w]) == oldsums[w],
            forall|w: int| mj <= w < m ==> (#[trigger] a.cnts@[w]) == oldcnts[w],
            forall|w: int|
                0 <= w < mj ==> (#[trigger] a.sums@[w]) == g_sum(items@, kv, w, i as int + 1),
            forall|w: int|
                0 <= w < mj ==> (#[trigger] a.cnts@[w]) == g_cnt(items@, kv, w, i as int + 1),
            forall|w: int| 0 <= w < mj ==> (#[trigger] a.cnts@[w]) <= i + 1,
            forall|w: int|
                0 <= w < mj ==> -(i as int + 1) * 0x8000_0000_0000_0000 <= (#[trigger] a.sums@[w])
                    <= (i as int + 1) * 0x7fff_ffff_ffff_ffff,
        decreases m - mj,
    {
        proof {
            assert((-(i as int) - 1) * 0x8000_0000_0000_0000 == -(i as int) * 0x8000_0000_0000_0000
                - 0x8000_0000_0000_0000) by (nonlinear_arith);
            assert(((i as int) + 1) * 0x7fff_ffff_ffff_ffff == (i as int) * 0x7fff_ffff_ffff_ffff
                + 0x7fff_ffff_ffff_ffff) by (nonlinear_arith);
        }
        match item.measures[mj] {
            Some(v) => {
                let ghost sbefore = a.sums@;
                let ghost cbefore = a.cnts@;
                proof {
                    assert(sbefore[mj as int] == oldsums[mj as int]);
                    assert(cbefore[mj as int] == oldcnts[mj as int]);
                }
                let sv = a.sums.remove(mj);
                a.sums.insert(mj, sv + (v as i128));
                let cv = a.cnts.remove(mj);
                a.cnts.insert(mj, cv + 1);
                proof {
                    assert(a.sums@ =~= sbefore.update(mj as int, (sv + (v as i128)) as i128));
                    assert(a.cnts@ =~= cbefore.update(mj as int, (cv + 1) as u64));
                }
            },
            None => {},
        }
        mj += 1;
    }
}

/// Group the items: one exact, bounded accumulator per distinct key, rows in
/// first-seen order, counts summing to the number of items.
#[verifier::rlimit(100)]
pub fn group_rows(items: &Vec<GroupItem>, m: usize) -> (accs: Vec<GroupAcc>)
    requires
        items_wf(items@, m as int),
    ensures
        group_state_ok(items@, accs@, m as int, items@.len() as int),
{
    let mut accs: Vec<GroupAcc> = Vec::new();
    let mut i: usize = 0;
    while i < items.len()
        invariant
            i <= items@.len(),
            items_wf(items@, m as int),
            group_state_ok(items@, accs@, m as int, i as int),
        decreases items@.len() - i,
    {
        let ghost before = accs@;
        let ghost kv = key_view(items@[i as int].key);
        let found = find_group_row(&accs, &items[i].key);
        match found {
            Some(idx) => {
                let mut a = accs.remove(idx);
                proof {
                    assert(acc_ok(items@, a, m as int, i as int));
                }
                let ghost acount = a.count;
                acc_add(&mut a, items, i, m);
                proof {
                    assert(before.remove(idx as int).insert(idx as int, a) =~= before.update(
                        idx as int,
                        a,
                    ));
                }
                accs.insert(idx, a);
                proof {
                    lemma_state_update(items@, before, accs@, a, idx as int, m as int, i as int);
                }
            },
            None => {
                proof {
                    lemma_unseen_key(items@, accs@, m as int, i as int);
                }
                let a = acc_new(items, i, m);
                accs.push(a);
                proof {
                    lemma_state_push(items@, before, accs@, a, m as int, i as int);
                }
            },
        }
        i += 1;
    }
    accs
}

} // verus!
