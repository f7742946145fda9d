//! Named positions of the signal columns.
#![allow(non_upper_case_globals)]

use vstd::prelude::*;

verus! {

pub const air: usize = 0;
pub const temperature: usize = 1;
pub const sea: usize = 2;
pub const uv: usize = 3;
pub const earthquake: usize = 4;
pub const fire: usize = 5;
pub const pollen: usize = 6;
pub const pressure: usize = 7;
pub const geomagnetic: usize = 8;
pub const daylight: usize = 9;
pub const moon: usize = 10;

} // verus!
