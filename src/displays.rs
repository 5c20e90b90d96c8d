use vstd::prelude::*;
use vstd::string::*;
use crate::common_math::{fmul, lemma_mul_bound, mul_fixed, scale, within, LIMIT, SCALE};

verus! {

/// A round instrument: a needle over the range `[min, max]`.
pub struct Dial {
    pub name: String,
    pub unit: String,
    pub max: i64,
    pub min: i64,
}

/// A bar instrument: a filled bar over the range `[min, max]`.
pub struct Gauge {
    pub name: String,
    pub unit: String,
    pub max: i64,
    pub min: i64,
}

/// The value at fraction `percent` of the way from `min` to `max`:
/// `max * percent + (1 - percent) * min`.
pub open spec fn spec_at_percent(max: int, min: int, percent: int) -> int {
    fmul(max, percent) + fmul(scale() - percent, min)
}

/// `spec_at_percent`, computed.
fn at_percent(max: i64, min: i64, percent: i64) -> (r: i64)
    requires
        within(max as int, LIMIT as int),
        within(min as int, LIMIT as int),
        within(percent as int, LIMIT as int),
    ensures
        r == spec_at_percent(max as int, min as int, percent as int),
{
    proof {
        assert(scale() == 1_000_000);
        lemma_mul_bound(max as int, percent as int, LIMIT as int, LIMIT as int);
        lemma_mul_bound(
            (scale() - percent) as int,
            min as int,
            (LIMIT + SCALE) as int,
            LIMIT as int,
        );
        assert(within(fmul(max as int, percent as int), 2_000_000_000_000_000_000)) by (
        nonlinear_arith)
            requires
                within(max * percent, LIMIT * LIMIT),
                scale() == 1_000_000,
        ;
        assert(within(fmul(scale() - percent, min as int), 2_000_000_000_000_000_000)) by (
        nonlinear_arith)
            requires
                within((scale() - percent) * min, (LIMIT + SCALE) * LIMIT),
                scale() == 1_000_000,
        ;
    }
    mul_fixed(max, percent) + mul_fixed(SCALE - percent, min)
}

impl Dial {
    /// A demonstration dial: "test", m/s, from -5 to 20.
    pub fn test() -> (r: Dial)
        ensures
            r.name@ == "test"@,
            r.unit@ == "m/s"@,
            r.max == 20_000_000,
            r.min == -5_000_000,
    {
        Dial {
            name: String::from_str("test"),
            unit: String::from_str("m/s"),
            max: 20 * SCALE,
            min: -5 * SCALE,
        }
    }

    pub fn new(name: String, unit: String, max: i64, min: i64) -> (r: Dial)
        ensures
            r.name == name,
            r.unit == unit,
            r.max == max,
            r.min == min,
    {
        Dial { name, unit, max, min }
    }

    /// The value at fraction `percent` of the dial's range.
    pub fn get_at_percent(&self, percent: i64) -> (r: i64)
        requires
            within(self.max as int, LIMIT as int),
            within(self.min as int, LIMIT as int),
            within(percent as int, LIMIT as int),
        ensures
            r == spec_at_percent(self.max as int, self.min as int, percent as int),
    {
        at_percent(self.max, self.min, percent)
    }
}

impl Gauge {
    /// A demonstration gauge: "test", no unit, from 0 to 1.
    pub fn test() -> (r: Gauge)
        ensures
            r.name@ == "test"@,
            r.unit@ == "na"@,
            r.max == 1_000_000,
            r.min == 0,
    {
        Gauge {
            name: String::from_str("test"),
            unit: String::from_str("na"),
            max: SCALE,
            min: 0,
        }
    }

    pub fn new(name: String, unit: String, max: i64, min: i64) -> (r: Gauge)
        ensures
            r.name == name,
            r.unit == unit,
            r.max == max,
            r.min == min,
    {
        Gauge { name, unit, max, min }
    }

    /// The value at fraction `percent` of the gauge's range.
    pub fn get_at_percent(&self, percent: i64) -> (r: i64)
        requires
            within(self.max as int, LIMIT as int),
            within(self.min as int, LIMIT as int),
            within(percent as int, LIMIT as int),
        ensures
            r == spec_at_percent(self.max as int, self.min as int, percent as int),
    {
        at_percent(self.max, self.min, percent)
    }
}

} // verus!
