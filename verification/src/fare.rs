//! Fare-efficiency ratios: the average fare per kilometre and the average
//! fare per minute. A trip contributes to the per-kilometre ratio only when
//! its distance is present and strictly positive, and to the per-minute ratio
//! only when its duration is present and strictly positive, so the two
//! averages may be taken over different subsets of the same trips. A trip
//! failing a guard is excluded from that average, never counted as zero.
//! An empty subset averages to zero.
//!
//! Each per-trip ratio is computed in fixed point: fares are cents, so the
//! per-kilometre term is `floor(fare * 1_000_000 / distance)` in thousandths
//! of a cent per kilometre (distance is thousandths of a kilometre), and the
//! per-minute term is `floor(fare * 60_000 / duration)` in thousandths of a
//! cent per minute (duration is seconds).
use vstd::prelude::*;
use crate::data::TripFact;
use crate::frac::{Frac, avg_frac, div_floor_i128};

verus! {

/// Scale of the per-kilometre term: `1000` (distance unit per kilometre)
/// times `1000` (sub-cent precision).
pub const KM_RATIO_SCALE: i64 = 1_000_000;

/// Scale of the per-minute term: `60` (seconds per minute) times `1000`
/// (sub-cent precision).
pub const MINUTE_RATIO_SCALE: i64 = 60_000;

/// Largest fare magnitude, in cents, the fixed-point accumulator admits
/// without overflow.
pub const FARE_AMOUNT_LIMIT: i64 = 4_000_000_000_000;

/// The trip enters the fare-per-kilometre average.
pub open spec fn km_qualifies(t: TripFact) -> bool {
    &&& t.trip_distance matches Some(d) && d > 0
    &&& t.fare_amount is Some
}

/// The trip enters the fare-per-minute average.
pub open spec fn minute_qualifies(t: TripFact) -> bool {
    &&& t.duration_seconds matches Some(d) && d > 0
    &&& t.fare_amount is Some
}

/// Fixed-point fare-per-kilometre term of a qualifying trip.
pub open spec fn km_ratio(fare: int, dist: int) -> int {
    (fare * KM_RATIO_SCALE) / dist
}

/// Fixed-point fare-per-minute term of a qualifying trip.
pub open spec fn minute_ratio(fare: int, dur: int) -> int {
    (fare * MINUTE_RATIO_SCALE) / dur
}

/// Sum of the per-kilometre terms over the qualifying trips.
pub open spec fn km_ratio_sum(trips: Seq<TripFact>) -> int
    decreases trips.len(),
{
    if trips.len() == 0 {
        0
    } else {
        let rest = km_ratio_sum(trips.drop_last());
        let t = trips.last();
        if km_qualifies(t) {
            rest + km_ratio(t.fare_amount->0 as int, t.trip_distance->0 as int)
        } else {
            rest
        }
    }
}

/// Number of trips qualifying for the per-kilometre average.
pub open spec fn km_count(trips: Seq<TripFact>) -> int
    decreases trips.len(),
{
    if trips.len() == 0 {
        0
    } else {
        km_count(trips.drop_last()) + if km_qualifies(trips.last()) {
            1int
        } else {
            0int
        }
    }
}

/// Sum of the per-minute terms over the qualifying trips.
pub open spec fn minute_ratio_sum(trips: Seq<TripFact>) -> int
    decreases trips.len(),
{
    if trips.len() == 0 {
        0
    } else {
        let rest = minute_ratio_sum(trips.drop_last());
        let t = trips.last();
        if minute_qualifies(t) {
            rest + minute_ratio(t.fare_amount->0 as int, t.duration_seconds->0 as int)
        } else {
            rest
        }
    }
}

/// Number of trips qualifying for the per-minute average.
pub open spec fn minute_count(trips: Seq<TripFact>) -> int
    decreases trips.len(),
{
    if trips.len() == 0 {
        0
    } else {
        minute_count(trips.drop_last()) + if minute_qualifies(trips.last()) {
            1int
        } else {
            0int
        }
    }
}

/// Fares within the fixed-point accumulator's limit.
pub open spec fn fares_bounded(trips: Seq<TripFact>) -> bool {
    forall|i: int|
        0 <= i < trips.len() ==> ((#[trigger] trips[i].fare_amount) matches Some(f)
            ==> -FARE_AMOUNT_LIMIT <= f <= FARE_AMOUNT_LIMIT)
}

/// A trip that fails a guard leaves that ratio's sum and count unchanged:
/// zero-distance rows never contribute to the fare-per-kilometre average,
/// and zero-duration rows never contribute to the fare-per-minute average.
pub proof fn lemma_nonqualifying_trip_does_not_contribute(trips: Seq<TripFact>, t: TripFact)
    ensures
        !km_qualifies(t) ==> km_ratio_sum(trips.push(t)) == km_ratio_sum(trips) && km_count(
            trips.push(t),
        ) == km_count(trips),
        !minute_qualifies(t) ==> minute_ratio_sum(trips.push(t)) == minute_ratio_sum(trips)
            && minute_count(trips.push(t)) == minute_count(trips),
{
    assert(trips.push(t).drop_last() =~= trips);
}

/// A quotient by a positive divisor lies between zero and the dividend.
proof fn lemma_div_magnitude(x: int, d: int)
    requires
        d >= 1,
    ensures
        x >= 0 ==> 0 <= x / d <= x,
        x < 0 ==> x <= x / d <= 0,
{
    let q = x / d;
    let r = x % d;
    vstd::arithmetic::div_mod::lemma_fundamental_div_mod(x, d);
    vstd::arithmetic::div_mod::lemma_mod_bound(x, d);
    if x >= 0 {
        assert(0 <= q <= x) by (nonlinear_arith)
            requires
                x == d * q + r,
                0 <= r < d,
                d >= 1,
                x >= 0,
        ;
    } else {
        assert(x <= q <= 0) by (nonlinear_arith)
            requires
                x == d * q + r,
                0 <= r < d,
                d >= 1,
                x < 0,
        ;
    }
}

/// The two fare-efficiency ratios, as exact rationals over the fixed-point
/// per-trip terms.
pub struct FareEfficiencyStats {
    pub avg_fare_per_km: Frac,
    pub avg_fare_per_minute: Frac,
}

/// Fare-efficiency ratios of `trips`: each field is the exact average of the
/// fixed-point per-trip terms over the trips qualifying for it, and zero when
/// no trip qualifies.
pub fn fare_efficiency_stats(trips: &Vec<TripFact>) -> (r: FareEfficiencyStats)
    requires
        fares_bounded(trips@),
    ensures
        r.avg_fare_per_km == avg_frac(km_ratio_sum(trips@), km_count(trips@)),
        r.avg_fare_per_minute == avg_frac(minute_ratio_sum(trips@), minute_count(trips@)),
        km_count(trips@) == 0 ==> r.avg_fare_per_km == Frac::spec_zero(),
        minute_count(trips@) == 0 ==> r.avg_fare_per_minute == Frac::spec_zero(),
{
    let mut km_sum: i128 = 0;
    let mut km_n: u64 = 0;
    let mut minute_sum: i128 = 0;
    let mut minute_n: u64 = 0;
    let mut i: usize = 0;
    proof {
        assert(trips@.subrange(0, 0) =~= Seq::<TripFact>::empty());
    }
    while i < trips.len()
        invariant
            i <= trips@.len(),
            fares_bounded(trips@),
            km_sum == km_ratio_sum(trips@.subrange(0, i as int)),
            km_n == km_count(trips@.subrange(0, i as int)),
            minute_sum == minute_ratio_sum(trips@.subrange(0, i as int)),
            minute_n == minute_count(trips@.subrange(0, i as int)),
            km_n <= i,
            minute_n <= i,
            -(i as int) * (FARE_AMOUNT_LIMIT as int) * (KM_RATIO_SCALE as int) <= km_sum <= (
            i as int) * (FARE_AMOUNT_LIMIT as int) * (KM_RATIO_SCALE as int),
            -(i as int) * (FARE_AMOUNT_LIMIT as int) * (KM_RATIO_SCALE as int) <= minute_sum <= (
            i as int) * (FARE_AMOUNT_LIMIT as int) * (KM_RATIO_SCALE as int),
        decreases trips@.len() - i,
    {
        proof {
            assert(trips@.subrange(0, i as int + 1).drop_last() =~= trips@.subrange(0, i as int));
            assert(trips@.subrange(0, i as int + 1).last() == trips@[i as int]);
            assert(((i as int) + 1) * (FARE_AMOUNT_LIMIT as int) * (KM_RATIO_SCALE as int) == (
            i as int) * (FARE_AMOUNT_LIMIT as int) * (KM_RATIO_SCALE as int) + (
            FARE_AMOUNT_LIMIT as int) * (KM_RATIO_SCALE as int)) by (nonlinear_arith);
            assert((-(i as int) - 1) * (FARE_AMOUNT_LIMIT as int) * (KM_RATIO_SCALE as int) == -(
            i as int) * (FARE_AMOUNT_LIMIT as int) * (KM_RATIO_SCALE as int) - (
            FARE_AMOUNT_LIMIT as int) * (KM_RATIO_SCALE as int)) by (nonlinear_arith);
        }
        let t = &trips[i];
        match (t.fare_amount, t.trip_distance) {
            (Some(f), Some(d)) => {
                if d > 0 {
                    let wide: i128 = (f as i128) * (KM_RATIO_SCALE as i128);
                    let term = div_floor_i128(wide, d as i128);
                    proof {
                        lemma_div_magnitude(wide as int, d as int);
                    }
                    km_sum = km_sum + term;
                    km_n = km_n + 1;
                }
            },
            _ => {},
        }
        let t = &trips[i];
        match (t.fare_amount, t.duration_seconds) {
            (Some(f), Some(d)) => {
                if d > 0 {
                    let wide: i128 = (f as i128) * (MINUTE_RATIO_SCALE as i128);
                    let term = div_floor_i128(wide, d as i128);
                    proof {
                        lemma_div_magnitude(wide as int, d as int);
                        assert(-(FARE_AMOUNT_LIMIT as int) * (KM_RATIO_SCALE as int) <= wide <= (
                        FARE_AMOUNT_LIMIT as int) * (KM_RATIO_SCALE as int)) by (nonlinear_arith)
                            requires
                                -FARE_AMOUNT_LIMIT <= f <= FARE_AMOUNT_LIMIT,
                                wide == f * MINUTE_RATIO_SCALE,
                        ;
                    }
                    minute_sum = minute_sum + term;
                    minute_n = minute_n + 1;
                }
            },
            _ => {},
        }
        i += 1;
    }
    proof {
        assert(trips@.subrange(0, trips@.len() as int) =~= trips@);
    }
    let km = if km_n == 0 {
        Frac::zero()
    } else {
        Frac { num: km_sum, den: km_n }
    };
    let minute = if minute_n == 0 {
        Frac::zero()
    } else {
        Frac { num: minute_sum, den: minute_n }
    };
    FareEfficiencyStats { avg_fare_per_km: km, avg_fare_per_minute: minute }
}

} // verus!
