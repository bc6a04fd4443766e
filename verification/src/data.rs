//! The star-schema data model, on plain values.
//!
//! Monetary amounts are integer cents, distances integer thousandths of a
//! kilometre, durations integer seconds. Dimension rows carry surrogate
//! integer keys; fact rows reference them through nullable keys. A dataset is
//! well formed when each dimension's keys are unique, which makes every key
//! lookup unambiguous.
use vstd::prelude::*;

verus! {

/// A calendar date, as plain year / month / day fields.
#[derive(Clone, Copy, PartialEq, Eq, Structural)]
pub struct Date {
    pub year: i32,
    pub month: u8,
    pub day: u8,
}

/// Month in 1..=12, day in 1..=31.
pub open spec fn valid_date(d: Date) -> bool {
    1 <= d.month <= 12 && 1 <= d.day <= 31
}

/// Chronological order on dates, lexicographic on (year, month, day).
pub open spec fn date_le(a: Date, b: Date) -> bool {
    if a.year != b.year {
        a.year < b.year
    } else if a.month != b.month {
        a.month < b.month
    } else {
        a.day <= b.day
    }
}

/// The first day of `d`'s calendar month.
pub open spec fn spec_month_floor(d: Date) -> Date {
    Date { year: d.year, month: d.month, day: 1 }
}

impl Date {
    /// Chronological comparison.
    pub fn le(&self, other: &Date) -> (r: bool)
        ensures
            r == date_le(*self, *other),
    {
        if self.year != other.year {
            self.year < other.year
        } else if self.month != other.month {
            self.month < other.month
        } else {
            self.day <= other.day
        }
    }

    /// Truncate to the first day of the month.
    pub fn month_floor(&self) -> (r: Date)
        ensures
            r == spec_month_floor(*self),
    {
        Date { year: self.year, month: self.month, day: 1 }
    }
}

/// One row of the date dimension.
pub struct DateDim {
    pub date_key: i32,
    pub full_date: Date,
    pub year: i32,
    pub month: i32,
    pub day: i32,
    pub day_of_week: i32,
    pub quarter: i32,
    pub is_weekend: bool,
}

/// One row of the location dimension; all descriptive columns are nullable.
pub struct LocationDim {
    pub location_key: i32,
    pub location_id: Option<i32>,
    pub borough: Option<String>,
    pub zone: Option<String>,
    pub service_zone: Option<String>,
}

/// One row of a name-only dimension (vendor, payment type, rate code):
/// surrogate key plus nullable human-readable name.
pub struct NamedDim {
    pub key: i32,
    pub name: Option<String>,
}

/// One trip of the fact table. Every dimension key and every measure is
/// nullable: source data may lack any of them. The pickup timestamp is
/// modelled by the fields the catalog reads from it: its date key, its ISO
/// day of week (1 = Monday .. 7 = Sunday) and its hour of day (0..=23).
pub struct TripFact {
    pub vendor_key: Option<i32>,
    pub pickup_date_key: Option<i32>,
    pub dropoff_date_key: Option<i32>,
    pub pickup_location_key: Option<i32>,
    pub dropoff_location_key: Option<i32>,
    pub rate_code_key: Option<i32>,
    pub payment_type_key: Option<i32>,
    pub pickup_weekday: Option<i32>,
    pub pickup_hour: Option<i32>,
    pub passenger_count: Option<i32>,
    /// Thousandths of a kilometre.
    pub trip_distance: Option<i64>,
    /// Cents.
    pub fare_amount: Option<i64>,
    /// Cents.
    pub extra: Option<i64>,
    /// Cents.
    pub mta_tax: Option<i64>,
    /// Cents.
    pub tip_amount: Option<i64>,
    /// Cents.
    pub tolls_amount: Option<i64>,
    /// Cents.
    pub improvement_surcharge: Option<i64>,
    /// Cents.
    pub total_amount: Option<i64>,
    /// Seconds; zero or negative values are bad source data.
    pub duration_seconds: Option<i64>,
}

/// The immutable star schema a request is answered from.
pub struct Dataset {
    pub dates: Vec<DateDim>,
    pub locations: Vec<LocationDim>,
    pub vendors: Vec<NamedDim>,
    pub payment_types: Vec<NamedDim>,
    pub rate_codes: Vec<NamedDim>,
    pub trips: Vec<TripFact>,
}

impl Dataset {
    /// Each dimension's surrogate keys are unique, so key lookups are
    /// unambiguous.
    pub open spec fn wf(self) -> bool {
        &&& forall|i: int, j: int|
            0 <= i < j < self.dates@.len() ==> (#[trigger] self.dates@[i]).date_key != (
            #[trigger] self.dates@[j]).date_key
        &&& forall|i: int, j: int|
            0 <= i < j < self.locations@.len() ==> (#[trigger] self.locations@[i]).location_key
                != (#[trigger] self.locations@[j]).location_key
        &&& forall|i: int, j: int|
            0 <= i < j < self.vendors@.len() ==> (#[trigger] self.vendors@[i]).key != (
            #[trigger] self.vendors@[j]).key
        &&& forall|i: int, j: int|
            0 <= i < j < self.payment_types@.len() ==> (#[trigger] self.payment_types@[i]).key
                != (#[trigger] self.payment_types@[j]).key
        &&& forall|i: int, j: int|
            0 <= i < j < self.rate_codes@.len() ==> (#[trigger] self.rate_codes@[i]).key != (
            #[trigger] self.rate_codes@[j]).key
    }
}

/// The first date-dimension row with the given key, if any.
pub open spec fn find_date(s: Seq<DateDim>, key: i32) -> Option<DateDim>
    decreases s.len(),
{
    if s.len() == 0 {
        None
    } else if s[0].date_key == key {
        Some(s[0])
    } else {
        find_date(s.drop_first(), key)
    }
}

/// The first location row with the given key, if any.
pub open spec fn find_location(s: Seq<LocationDim>, key: i32) -> Option<LocationDim>
    decreases s.len(),
{
    if s.len() == 0 {
        None
    } else if s[0].location_key == key {
        Some(s[0])
    } else {
        find_location(s.drop_first(), key)
    }
}

/// The first name-dimension row with the given key, if any.
pub open spec fn find_named(s: Seq<NamedDim>, key: i32) -> Option<NamedDim>
    decreases s.len(),
{
    if s.len() == 0 {
        None
    } else if s[0].key == key {
        Some(s[0])
    } else {
        find_named(s.drop_first(), key)
    }
}

/// Index of the first date-dimension row with the given key.
pub fn lookup_date(dates: &Vec<DateDim>, key: i32) -> (r: Option<usize>)
    ensures
        match r {
            Some(i) => i < dates@.len() && dates@[i as int].date_key == key && find_date(
                dates@,
                key,
            ) == Some(dates@[i as int]),
            None => find_date(dates@, key) is None,
        },
{
    let mut i: usize = 0;
    proof {
        assert(dates@.skip(0) =~= dates@);
    }
    while i < dates.len()
        invariant
            i <= dates@.len(),
            find_date(dates@, key) == find_date(dates@.skip(i as int), key),
        decreases dates@.len() - i,
    {
        if dates[i].date_key == key {
            proof {
                assert(dates@.skip(i as int)[0] == dates@[i as int]);
            }
            return Some(i);
        }
        proof {
            assert(dates@.skip(i as int).drop_first() =~= dates@.skip(i as int + 1));
        }
        i += 1;
    }
    proof {
        assert(dates@.skip(i as int).len() == 0);
    }
    None
}

/// Index of the first location row with the given key.
pub fn lookup_location(locs: &Vec<LocationDim>, key: i32) -> (r: Option<usize>)
    ensures
        match r {
            Some(i) => i < locs@.len() && locs@[i as int].location_key == key && find_location(
                locs@,
                key,
            ) == Some(locs@[i as int]),
            None => find_location(locs@, key) is None,
        },
{
    let mut i: usize = 0;
    proof {
        assert(locs@.skip(0) =~= locs@);
    }
    while i < locs.len()
        invariant
            i <= locs@.len(),
            find_location(locs@, key) == find_location(locs@.skip(i as int), key),
        decreases locs@.len() - i,
    {
        if locs[i].location_key == key {
            proof {
                assert(locs@.skip(i as int)[0] == locs@[i as int]);
            }
            return Some(i);
        }
        proof {
            assert(locs@.skip(i as int).drop_first() =~= locs@.skip(i as int + 1));
        }
        i += 1;
    }
    proof {
        assert(locs@.skip(i as int).len() == 0);
    }
    None
}

/// Index of the first name-dimension row with the given key.
pub fn lookup_named(dim: &Vec<NamedDim>, key: i32) -> (r: Option<usize>)
    ensures
        match r {
            Some(i) => i < dim@.len() && dim@[i as int].key == key && find_named(dim@, key)
                == Some(dim@[i as int]),
            None => find_named(dim@, key) is None,
        },
{
    let mut i: usize = 0;
    proof {
        assert(dim@.skip(0) =~= dim@);
    }
    while i < dim.len()
        invariant
            i <= dim@.len(),
            find_named(dim@, key) == find_named(dim@.skip(i as int), key),
        decreases dim@.len() - i,
    {
        if dim[i].key == key {
            proof {
                assert(dim@.skip(i as int)[0] == dim@[i as int]);
            }
            return Some(i);
        }
        proof {
            assert(dim@.skip(i as int).drop_first() =~= dim@.skip(i as int + 1));
        }
        i += 1;
    }
    proof {
        assert(dim@.skip(i as int).len() == 0);
    }
    None
}

/// The view of a nullable string column: the character sequence, if present.
pub open spec fn view_opt_str(o: Option<String>) -> Option<Seq<char>> {
    match o {
        Some(s) => Some(s@),
        None => None,
    }
}

/// Equality of two nullable strings, by contents.
pub fn opt_str_eq(a: &Option<String>, b: &Option<String>) -> (r: bool)
    ensures
        r == (view_opt_str(*a) == view_opt_str(*b)),
{
    match (a, b) {
        (Some(x), Some(y)) => {
            let e = x.eq(y);
            proof {
                if x@ == y@ {
                    assert(view_opt_str(*a) == view_opt_str(*b));
                }
            }
            e
        },
        (None, None) => true,
        _ => false,
    }
}

/// A copy of a nullable string, equal to the original.
pub fn clone_opt_string(o: &Option<String>) -> (r: Option<String>)
    ensures
        r == *o,
{
    match o {
        Some(s) => Some(s.clone()),
        None => None,
    }
}

/// Equality of two nullable integers.
pub fn opt_i32_eq(a: &Option<i32>, b: &Option<i32>) -> (r: bool)
    ensures
        r == (*a == *b),
{
    match (a, b) {
        (Some(x), Some(y)) => *x == *y,
        (None, None) => true,
        _ => false,
    }
}

} // verus!
