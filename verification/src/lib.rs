//! Aggregation layer for a star-schema trip dataset: statistical catalog
//! entries (volumes, categorical breakdowns, percentiles, ratios, KPI
//! trends) computed over plain values, with verified contracts.
use vstd::prelude::*;

pub mod breakdown;
pub mod data;
pub mod duration;
pub mod errors;
pub mod fare;
pub mod flows;
pub mod frac;
pub mod group;
pub mod kpi;
pub mod order;
pub mod seqsum;
pub mod series;

verus! {

} // verus!
