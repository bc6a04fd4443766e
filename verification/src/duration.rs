//! Trip-duration distribution: average, minimum, maximum and the continuous
//! (linearly interpolated) 25th/50th/75th percentiles over the durations that
//! are present and strictly positive. Zero and negative durations are bad
//! source data and are excluded, not clamped; an empty sample reports zero in
//! every field.
use vstd::prelude::*;
use crate::data::TripFact;
use crate::frac::{Frac, avg_frac, frac_le};
use crate::order::{SortKey, sort_by_key, sorted_by_key};
use crate::seqsum::{seq_sum_by, lemma_sums_equal_multisets_equal};

verus! {

impl SortKey for i64 {
    open spec fn le_spec(self, other: i64) -> bool {
        self <= other
    }

    proof fn lemma_total(a: i64, b: i64) {
    }

    proof fn lemma_trans(a: i64, b: i64, c: i64) {
    }

    fn le(&self, other: &i64) -> (r: bool) {
        *self <= *other
    }
}

/// Nondecreasing order.
pub open spec fn sorted_i64(s: Seq<i64>) -> bool {
    forall|i: int, j: int| 0 <= i < j < s.len() ==> s[i] <= s[j]
}

/// The durations that enter the distribution: present and strictly positive,
/// in trip order.
pub open spec fn duration_sample(trips: Seq<TripFact>) -> Seq<i64>
    decreases trips.len(),
{
    if trips.len() == 0 {
        Seq::empty()
    } else {
        let rest = duration_sample(trips.drop_last());
        match trips.last().duration_seconds {
            Some(d) => if d > 0 {
                rest.push(d)
            } else {
                rest
            },
            None => rest,
        }
    }
}

/// The nondecreasing order the sample is sorted by.
pub open spec fn i64_leq() -> spec_fn(i64, i64) -> bool {
    |x: i64, y: i64| x <= y
}

/// The sample in nondecreasing order.
pub open spec fn sort_i64(s: Seq<i64>) -> Seq<i64> {
    s.sort_by(i64_leq())
}

/// The sum of a duration sequence.
pub open spec fn sum_i64(s: Seq<i64>) -> int {
    seq_sum_by(s, |x: i64| x as int)
}

/// Numerator (over denominator 100) of the continuous `q`-th percentile of a
/// sorted, non-empty sample: the rank `(len - 1) * q / 100` is split into
/// whole part `i` and fractional part `r / 100`, and the value is interpolated
/// linearly between the ranked neighbours.
pub open spec fn pct_num(s: Seq<i64>, q: int) -> int {
    let pos = (s.len() - 1) * q;
    let i = pos / 100;
    let r = pos % 100;
    if i + 1 < s.len() {
        s[i] * 100 + r * (s[i + 1] - s[i])
    } else {
        s[i] * 100
    }
}

/// The continuous `q`-th percentile, as an exact rational.
pub open spec fn pct_frac(s: Seq<i64>, q: int) -> Frac {
    Frac { num: pct_num(s, q) as i128, den: 100 }
}

/// Distribution summary of trip durations, each value an exact rational in
/// seconds.
pub struct TripDurationStats {
    pub avg_duration_seconds: Frac,
    pub min_duration_seconds: Frac,
    pub max_duration_seconds: Frac,
    pub p25_duration_seconds: Frac,
    pub p50_duration_seconds: Frac,
    pub p75_duration_seconds: Frac,
}

/// The all-zero summary, reported for an empty sample.
pub open spec fn zero_duration_stats() -> TripDurationStats {
    TripDurationStats {
        avg_duration_seconds: Frac::spec_zero(),
        min_duration_seconds: Frac::spec_zero(),
        max_duration_seconds: Frac::spec_zero(),
        p25_duration_seconds: Frac::spec_zero(),
        p50_duration_seconds: Frac::spec_zero(),
        p75_duration_seconds: Frac::spec_zero(),
    }
}

/// The filtered durations, in trip order.
pub fn collect_durations(trips: &Vec<TripFact>) -> (r: Vec<i64>)
    ensures
        r@ == duration_sample(trips@),
{
    let mut out: Vec<i64> = Vec::new();
    let mut i: usize = 0;
    proof {
        assert(trips@.subrange(0, 0) =~= Seq::<TripFact>::empty());
    }
    while i < trips.len()
        invariant
            i <= trips@.len(),
            out@ == duration_sample(trips@.subrange(0, i as int)),
        decreases trips@.len() - i,
    {
        proof {
            assert(trips@.subrange(0, i as int + 1).drop_last() =~= trips@.subrange(0, i as int));
            assert(trips@.subrange(0, i as int + 1).last() == trips@[i as int]);
        }
        match trips[i].duration_seconds {
            Some(d) => {
                if d > 0 {
                    out.push(d);
                }
            },
            None => {},
        }
        i += 1;
    }
    proof {
        assert(trips@.subrange(0, trips@.len() as int) =~= trips@);
    }
    out
}

/// Two sorted sequences holding the same elements with the same
/// multiplicities are the same sequence.
pub proof fn lemma_sorted_multiset_unique(s: Seq<i64>, t: Seq<i64>)
    requires
        sorted_i64(s),
        sorted_i64(t),
        s.to_multiset() == t.to_multiset(),
    ensures
        s =~= t,
    decreases s.len(),
{
    s.to_multiset_ensures();
    t.to_multiset_ensures();
    if s.len() == 0 {
        assert(t.len() == 0);
    } else {
        assert(s.len() == t.len());
        let a = s.last();
        let b = t.last();
        assert(s.contains(a)) by {
            assert(s[s.len() - 1] == a);
        }
        assert(s.to_multiset().count(a) > 0);
        assert(t.contains(a));
        let ia = choose|ia: int| 0 <= ia < t.len() && t[ia] == a;
        assert(a <= b) by {
            if ia < t.len() - 1 {
                assert(t[ia] <= t[t.len() - 1]);
            }
        }
        assert(t.contains(b)) by {
            assert(t[t.len() - 1] == b);
        }
        assert(t.to_multiset().count(b) > 0);
        assert(s.contains(b));
        let ib = choose|ib: int| 0 <= ib < s.len() && s[ib] == b;
        assert(b <= a) by {
            if ib < s.len() - 1 {
                assert(s[ib] <= s[s.len() - 1]);
            }
        }
        assert(a == b);
        assert(s.drop_last() =~= s.remove(s.len() - 1));
        assert(t.drop_last() =~= t.remove(t.len() - 1));
        assert(s.drop_last().to_multiset() == t.drop_last().to_multiset()) by {
            assert(s.remove(s.len() - 1).to_multiset() =~= s.to_multiset().remove(a));
            assert(t.remove(t.len() - 1).to_multiset() =~= t.to_multiset().remove(a));
        }
        lemma_sorted_multiset_unique(s.drop_last(), t.drop_last());
        assert forall|k: int| 0 <= k < s.len() implies s[k] == t[k] by {
            if k < s.len() - 1 {
                assert(s.drop_last()[k] == t.drop_last()[k]);
            }
        }
    }
}

/// In a sorted non-empty sample, every interpolated percentile lies between
/// the smallest and the largest value.
pub proof fn lemma_pct_bounds(s: Seq<i64>, q: int)
    requires
        sorted_i64(s),
        s.len() >= 1,
        0 <= q <= 100,
    ensures
        s[0] * 100 <= pct_num(s, q),
        pct_num(s, q) <= s[s.len() - 1] * 100,
{
    let n = s.len() as int;
    let pos = (n - 1) * q;
    let i = pos / 100;
    let r = pos % 100;
    assert(0 <= pos && pos <= (n - 1) * 100) by (nonlinear_arith)
        requires
            n >= 1,
            0 <= q <= 100,
            pos == (n - 1) * q,
    ;
    vstd::arithmetic::div_mod::lemma_fundamental_div_mod(pos, 100);
    vstd::arithmetic::div_mod::lemma_mod_bound(pos, 100);
    assert(0 <= i < n) by (nonlinear_arith)
        requires
            pos == 100 * i + r,
            0 <= r < 100,
            0 <= pos <= (n - 1) * 100,
    ;
    if i + 1 < n {
        assert(s[i] <= s[i + 1]);
        assert(s[0] <= s[i] && s[i + 1] <= s[n - 1]) by {
            if 0 < i {
                assert(s[0] <= s[i]);
            }
            if i + 1 < n - 1 {
                assert(s[i + 1] <= s[n - 1]);
            }
        }
        assert(s[i] * 100 <= s[i] * 100 + r * (s[i + 1] - s[i]) && s[i] * 100 + r * (s[i + 1]
            - s[i]) <= s[i + 1] * 100) by (nonlinear_arith)
            requires
                0 <= r < 100,
                s[i] <= s[i + 1],
        ;
        assert(s[0] * 100 <= s[i] * 100 && s[i + 1] * 100 <= s[n - 1] * 100) by (nonlinear_arith)
            requires
                s[0] <= s[i],
                s[i + 1] <= s[n - 1],
        ;
    } else {
        assert(s[0] <= s[i] && s[i] <= s[n - 1]) by {
            if 0 < i {
                assert(s[0] <= s[i]);
            }
        }
        assert(s[0] * 100 <= s[i] * 100 && s[i] * 100 <= s[n - 1] * 100) by (nonlinear_arith)
            requires
                s[0] <= s[i],
                s[i] <= s[n - 1],
        ;
    }
}

/// In a sorted non-empty sample, interpolated percentiles are monotone in the
/// requested rank.
pub proof fn lemma_pct_monotone(s: Seq<i64>, q1: int, q2: int)
    requires
        sorted_i64(s),
        s.len() >= 1,
        0 <= q1 <= q2 <= 100,
    ensures
        pct_num(s, q1) <= pct_num(s, q2),
{
    let n = s.len() as int;
    let pos1 = (n - 1) * q1;
    let pos2 = (n - 1) * q2;
    let i1 = pos1 / 100;
    let i2 = pos2 / 100;
    let r1 = pos1 % 100;
    let r2 = pos2 % 100;
    assert(0 <= pos1 && pos1 <= pos2 && pos2 <= (n - 1) * 100) by (nonlinear_arith)
        requires
            n >= 1,
            0 <= q1 <= q2 <= 100,
            pos1 == (n - 1) * q1,
            pos2 == (n - 1) * q2,
    ;
    vstd::arithmetic::div_mod::lemma_fundamental_div_mod(pos1, 100);
    vstd::arithmetic::div_mod::lemma_mod_bound(pos1, 100);
    vstd::arithmetic::div_mod::lemma_fundamental_div_mod(pos2, 100);
    vstd::arithmetic::div_mod::lemma_mod_bound(pos2, 100);
    vstd::arithmetic::div_mod::lemma_div_is_ordered(pos1, pos2, 100);
    assert(0 <= i1 && i1 <= i2 && i2 < n) by (nonlinear_arith)
        requires
            pos2 == 100 * i2 + r2,
            0 <= r2 < 100,
            0 <= pos2 <= (n - 1) * 100,
            pos1 == 100 * i1 + r1,
            0 <= r1 < 100,
            0 <= pos1,
            i1 <= i2,
    ;
    if i1 == i2 {
        assert(r1 <= r2);
        if i1 + 1 < n {
            assert(s[i1] <= s[i1 + 1]);
            assert(s[i1] * 100 + r1 * (s[i1 + 1] - s[i1]) <= s[i1] * 100 + r2 * (s[i1 + 1]
                - s[i1])) by (nonlinear_arith)
                requires
                    0 <= r1 <= r2,
                    s[i1] <= s[i1 + 1],
            ;
        }
    } else {
        // i1 < i2: the q1 value is at most s[i1 + 1], the q2 value at least s[i2].
        assert(i1 + 1 < n);
        assert(s[i1] <= s[i1 + 1]);
        assert(pct_num(s, q1) <= s[i1 + 1] * 100) by (nonlinear_arith)
            requires
                pct_num(s, q1) == s[i1] * 100 + r1 * (s[i1 + 1] - s[i1]),
                0 <= r1 < 100,
                s[i1] <= s[i1 + 1],
        ;
        assert(s[i1 + 1] <= s[i2]) by {
            if i1 + 1 < i2 {
                assert(s[i1 + 1] <= s[i2]);
            }
        }
        if i2 + 1 < n {
            assert(s[i2] <= s[i2 + 1]);
            assert(s[i2] * 100 <= pct_num(s, q2)) by (nonlinear_arith)
                requires
                    pct_num(s, q2) == s[i2] * 100 + r2 * (s[i2 + 1] - s[i2]),
                    0 <= r2 < 100,
                    s[i2] <= s[i2 + 1],
            ;
        }
        assert(s[i1 + 1] * 100 <= s[i2] * 100) by (nonlinear_arith)
            requires
                s[i1 + 1] <= s[i2],
        ;
    }
}

/// Sums of a sequence bounded below and above elementwise are bounded by the
/// corresponding multiples.
pub proof fn lemma_sum_i64_bounds(s: Seq<i64>, lo: int, hi: int)
    requires
        forall|i: int| 0 <= i < s.len() ==> lo <= #[trigger] s[i] <= hi,
    ensures
        lo * s.len() <= sum_i64(s),
        sum_i64(s) <= hi * s.len(),
    decreases s.len(),
{
    if s.len() == 0 {
        assert(lo * 0 == 0) by (nonlinear_arith);
        assert(hi * 0 == 0) by (nonlinear_arith);
    } else {
        lemma_sum_i64_bounds(s.drop_last(), lo, hi);
        let m = s.len() - 1;
        assert(lo <= s[m] <= hi);
        assert(lo * s.len() == lo * m + lo && hi * s.len() == hi * m + hi) by (nonlinear_arith)
            requires
                m == s.len() - 1,
        ;
    }
}

/// The continuous `q`-th percentile of a sorted, non-empty sample.
pub fn percentile_cont(v: &Vec<i64>, q: u64) -> (r: Frac)
    requires
        v@.len() >= 1,
        q <= 100,
        sorted_i64(v@),
    ensures
        r == pct_frac(v@, q as int),
{
    let n = v.len();
    proof {
        assert((n as int - 1) * (q as int) <= (n as int - 1) * 100) by (nonlinear_arith)
            requires
                n >= 1,
                q <= 100,
        ;
    }
    let pos: u128 = ((n - 1) as u128) * (q as u128);
    let idx128: u128 = pos / 100;
    let rem128: u128 = pos % 100;
    proof {
        let ni = n as int;
        let posi = pos as int;
        assert(posi <= (ni - 1) * 100) by (nonlinear_arith)
            requires
                posi == (ni - 1) * (q as int),
                q <= 100,
                ni >= 1,
        ;
        vstd::arithmetic::div_mod::lemma_fundamental_div_mod(posi, 100);
        vstd::arithmetic::div_mod::lemma_mod_bound(posi, 100);
        assert(idx128 < ni) by (nonlinear_arith)
            requires
                posi == 100 * (idx128 as int) + (rem128 as int),
                0 <= rem128 < 100,
                0 <= posi <= (ni - 1) * 100,
        ;
    }
    let i = idx128 as usize;
    let rf = rem128 as i128;
    let vi = v[i] as i128;
    if i + 1 < n {
        let vn = v[i + 1] as i128;
        proof {
            assert(v@[i as int] <= v@[i as int + 1]);
            assert(0 <= rf * (vn - vi) <= 100 * (vn - vi)) by (nonlinear_arith)
                requires
                    0 <= rf < 100,
                    vn >= vi,
            ;
        }
        let num = vi * 100 + rf * (vn - vi);
        Frac { num, den: 100 }
    } else {
        Frac { num: vi * 100, den: 100 }
    }
}

/// Distribution of the positive trip durations in `trips`.
///
/// The reported values are pinned exactly: with `sample` the filtered
/// durations and `sorted` that sample in nondecreasing order, the average is
/// `sum / len`, the minimum and maximum are the end elements, and each
/// percentile is the continuous percentile of `sorted`. An empty sample
/// yields the all-zero summary. On a non-empty sample the summary is
/// internally consistent: `min <= p25 <= p50 <= p75 <= max` and
/// `min <= avg <= max`.
#[verifier::rlimit(100)]
pub fn trip_duration_stats(trips: &Vec<TripFact>) -> (r: TripDurationStats)
    ensures
        ({
            let sample = duration_sample(trips@);
            let sorted = sort_i64(sample);
            &&& sample.len() == 0 ==> r == zero_duration_stats()
            &&& sample.len() > 0 ==> {
                &&& r.avg_duration_seconds == avg_frac(sum_i64(sample), sample.len() as int)
                &&& r.min_duration_seconds == (Frac { num: sorted[0] as i128, den: 1 })
                &&& r.max_duration_seconds == (Frac {
                    num: sorted[sorted.len() - 1] as i128,
                    den: 1,
                })
                &&& r.p25_duration_seconds == pct_frac(sorted, 25)
                &&& r.p50_duration_seconds == pct_frac(sorted, 50)
                &&& r.p75_duration_seconds == pct_frac(sorted, 75)
                &&& frac_le(r.min_duration_seconds, r.p25_duration_seconds)
                &&& frac_le(r.p25_duration_seconds, r.p50_duration_seconds)
                &&& frac_le(r.p50_duration_seconds, r.p75_duration_seconds)
                &&& frac_le(r.p75_duration_seconds, r.max_duration_seconds)
                &&& frac_le(r.min_duration_seconds, r.avg_duration_seconds)
                &&& frac_le(r.avg_duration_seconds, r.max_duration_seconds)
            }
        }),
{
    let ghost sample = duration_sample(trips@);
    let mut v = collect_durations(trips);
    if v.len() == 0 {
        return TripDurationStats {
            avg_duration_seconds: Frac::zero(),
            min_duration_seconds: Frac::zero(),
            max_duration_seconds: Frac::zero(),
            p25_duration_seconds: Frac::zero(),
            p50_duration_seconds: Frac::zero(),
            p75_duration_seconds: Frac::zero(),
        };
    }
    sort_by_key(&mut v);
    proof {
        lemma_sums_equal_multisets_equal(v@, sample);
        sample.lemma_sort_by_ensures(i64_leq());
        let ss = sort_i64(sample);
        assert(vstd::relations::sorted_by(ss, i64_leq()));
        assert forall|i: int, j: int| 0 <= i < j < ss.len() implies ss[i] <= ss[j] by {
            assert(i64_leq()(ss[i], ss[j]));
        }
        assert(sorted_i64(ss));
        assert forall|i: int, j: int| 0 <= i < j < v@.len() implies v@[i] <= v@[j] by {
            assert(v@[i].le_spec(v@[j]));
        }
        assert(sorted_i64(v@));
        lemma_sorted_multiset_unique(v@, sort_i64(sample));
        assert(v@ == sort_i64(sample));
    }
    let n = v.len();
    let mut sum: i128 = 0;
    let mut i: usize = 0;
    proof {
        assert(v@.subrange(0, 0) =~= Seq::<i64>::empty());
    }
    while i < n
        invariant
            i <= n,
            n == v@.len(),
            sorted_i64(v@),
            sum == sum_i64(v@.subrange(0, i as int)),
            -(i as int) * 0x8000_0000_0000_0000 <= sum <= (i as int) * 0x7fff_ffff_ffff_ffff,
        decreases n - i,
    {
        proof {
            assert(v@.subrange(0, i as int + 1).drop_last() =~= v@.subrange(0, i as int));
            assert(v@.subrange(0, i as int + 1).last() == v@[i as int]);
            assert((-(i as int) - 1) * 0x8000_0000_0000_0000 == -(i as int) * 0x8000_0000_0000_0000
                - 0x8000_0000_0000_0000) by (nonlinear_arith);
            assert(((i as int) + 1) * 0x7fff_ffff_ffff_ffff == (i as int) * 0x7fff_ffff_ffff_ffff
                + 0x7fff_ffff_ffff_ffff) by (nonlinear_arith);
        }
        sum = sum + (v[i] as i128);
        i += 1;
    }
    proof {
        assert(v@.subrange(0, n as int) =~= v@);
    }
    let minv = v[0];
    let maxv = v[n - 1];
    let p25 = percentile_cont(&v, 25);
    let p50 = percentile_cont(&v, 50);
    let p75 = percentile_cont(&v, 75);
    proof {
        let sv = v@;
        lemma_pct_bounds(sv, 25);
        lemma_pct_bounds(sv, 75);
        lemma_pct_monotone(sv, 25, 50);
        lemma_pct_monotone(sv, 50, 75);
        assert(forall|k: int| 0 <= k < sv.len() ==> minv <= #[trigger] sv[k] <= maxv) by {
            assert(forall|k: int| 0 < k < sv.len() ==> sv[0] <= #[trigger] sv[k]);
            assert(forall|k: int| 0 <= k < sv.len() - 1 ==> #[trigger] sv[k] <= sv[sv.len() - 1]);
        }
        lemma_sum_i64_bounds(sv, minv as int, maxv as int);
        // The sum over the sorted sample equals the sum over the sample.
        assert(sum_i64(sv) == sum_i64(sample));
    }
    let r = TripDurationStats {
        avg_duration_seconds: Frac { num: sum, den: n as u64 },
        min_duration_seconds: Frac { num: minv as i128, den: 1 },
        max_duration_seconds: Frac { num: maxv as i128, den: 1 },
        p25_duration_seconds: p25,
        p50_duration_seconds: p50,
        p75_duration_seconds: p75,
    };
    proof {
        let sorted = sort_i64(sample);
        assert(r.avg_duration_seconds == avg_frac(sum_i64(sample), sample.len() as int));
        assert(r.min_duration_seconds == (Frac { num: sorted[0] as i128, den: 1 }));
        assert(r.max_duration_seconds == (Frac { num: sorted[sorted.len() - 1] as i128, den: 1 }));
        assert(r.p25_duration_seconds == pct_frac(sorted, 25));
        assert(r.p50_duration_seconds == pct_frac(sorted, 50));
        assert(r.p75_duration_seconds == pct_frac(sorted, 75));
        assert(frac_le(r.min_duration_seconds, r.p25_duration_seconds));
        assert(frac_le(r.p25_duration_seconds, r.p50_duration_seconds));
        assert(frac_le(r.p50_duration_seconds, r.p75_duration_seconds));
        assert(frac_le(r.p75_duration_seconds, r.max_duration_seconds));
        assert(frac_le(r.min_duration_seconds, r.avg_duration_seconds));
        assert(frac_le(r.avg_duration_seconds, r.max_duration_seconds));
    }
    r
}

} // verus!
