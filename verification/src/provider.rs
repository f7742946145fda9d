//! Data providers the command line can read from.

use vstd::prelude::*;

verus! {

/// Where air-quality readings come from.
#[derive(Debug, Clone, Copy, PartialEq, Eq, Structural)]
pub enum Provider {
    /// Open-Meteo model and Sensor.Community sensors together.
    All,
    /// Open-Meteo model only.
    OpenMeteo,
    /// One Sensor.Community sensor.
    SensorCommunity,
}

impl Default for Provider {
    /// Both sources together.
    fn default() -> (p: Self)
        ensures
            p == Provider::All,
    {
        Provider::All
    }
}

} // verus!
