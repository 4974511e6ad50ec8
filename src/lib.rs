//! Small numeric utilities: locating a value among ordered stations,
//! and exact descriptive statistics over integer samples.
use vstd::prelude::*;

pub mod histogram;
pub mod stat;

pub use histogram::Histogram;
pub use stat::{ave, ave_dev, Fraction, StatError};

use histogram::station_of;
use stat::{sum_of, variance_den, variance_num};

verus! {

/// Every operation of the library is a function of its inputs: a lookup
/// among equal stations of an equal value finds the same bin, and equal
/// samples have the same mean and variance, however often they are asked for.
pub proof fn lemma_same_inputs_same_results(
    s1: Seq<i32>,
    v1: i32,
    s2: Seq<i32>,
    v2: i32,
    x1: Seq<i32>,
    x2: Seq<i32>,
)
    requires
        s1 == s2,
        v1 == v2,
        x1 == x2,
    ensures
        station_of(s1, v1) == station_of(s2, v2),
        sum_of(x1) == sum_of(x2),
        variance_num(x1) == variance_num(x2),
        variance_den(x1) == variance_den(x2),
{
}

} // verus!
