//! Rules of merging the model forecast with sensor medians: sensors are ground truth, the model
//! is the fallback.

use vstd::prelude::*;

verus! {

/// Which sources a merged reading came from.
pub open spec fn spec_merge_source(has_sensor: bool, has_model: bool) -> Seq<char> {
    if has_sensor && has_model {
        "sensors+model"@
    } else if has_sensor {
        "sensors"@
    } else if has_model {
        "model-only"@
    } else {
        "no-data"@
    }
}

/// Share of the model weight kept for a given number of sensors, in percent: the denser the
/// sensor network, the less the model counts.
pub open spec fn spec_sensor_discount_pct(sensor_count: int) -> int {
    if sensor_count == 0 {
        100
    } else if sensor_count <= 2 {
        80
    } else if sensor_count <= 5 {
        50
    } else if sensor_count <= 15 {
        30
    } else {
        10
    }
}

/// Source description of a merged reading, from whether a sensor PM2.5 and a model PM2.5 are
/// available.
pub fn merge_source(has_sensor: bool, has_model: bool) -> (r: &'static str)
    ensures
        r@ == spec_merge_source(has_sensor, has_model),
{
    match (has_sensor, has_model) {
        (true, true) => "sensors+model",
        (true, false) => "sensors",
        (false, true) => "model-only",
        (false, false) => "no-data",
    }
}

/// Share of the model weight kept with `sensor_count` sensors, in percent
/// (0 sensors: 100, 1-2: 80, 3-5: 50, 6-15: 30, more: 10).
pub fn sensor_discount_pct(sensor_count: u32) -> (r: u32)
    ensures
        r == spec_sensor_discount_pct(sensor_count as int),
{
    match sensor_count {
        0 => 100,
        1..=2 => 80,
        3..=5 => 50,
        6..=15 => 30,
        _ => 10,
    }
}

/// More sensors never give the model more weight.
pub proof fn law_discount_antitone(a: int, b: int)
    requires
        0 <= a <= b,
    ensures
        spec_sensor_discount_pct(b) <= spec_sensor_discount_pct(a),
        10 <= spec_sensor_discount_pct(b) <= 100,
{
}

} // verus!
