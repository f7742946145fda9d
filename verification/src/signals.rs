//! The comfort signal columns: their order, names and weights.

use vstd::prelude::*;
use crate::text::chars_of;

verus! {

/// Number of signal columns.
pub const N_SIGNALS: usize = 11;

/// Comfort-index weight of each column, in hundredths, in column order
/// (air, temperature, sea, uv, earthquake, fire, pollen, pressure, geomagnetic, daylight, moon).
pub const SIGNAL_WEIGHTS: [u32; N_SIGNALS] = [22, 18, 12, 8, 8, 5, 5, 5, 3, 2, 0];

/// Column names in column order.
pub const SIGNAL_NAMES: [&'static str; N_SIGNALS] = [
    "air",
    "temperature",
    "sea",
    "uv",
    "earthquake",
    "fire",
    "pollen",
    "pressure",
    "geomagnetic",
    "daylight",
    "moon",
];

/// Column name of column `i`.
pub open spec fn spec_signal_name(i: int) -> Seq<char> {
    if i == 0 {
        "air"@
    } else if i == 1 {
        "temperature"@
    } else if i == 2 {
        "sea"@
    } else if i == 3 {
        "uv"@
    } else if i == 4 {
        "earthquake"@
    } else if i == 5 {
        "fire"@
    } else if i == 6 {
        "pollen"@
    } else if i == 7 {
        "pressure"@
    } else if i == 8 {
        "geomagnetic"@
    } else if i == 9 {
        "daylight"@
    } else {
        "moon"@
    }
}

/// Weight (hundredths) of column `i`.
pub open spec fn spec_signal_weight(i: int) -> int {
    if i == 0 {
        22
    } else if i == 1 {
        18
    } else if i == 2 {
        12
    } else if i == 3 || i == 4 {
        8
    } else if 5 <= i <= 7 {
        5
    } else if i == 8 {
        3
    } else if i == 9 {
        2
    } else {
        0
    }
}

/// Sum of the weights of columns `0..k`.
pub open spec fn weight_sum(k: int) -> int
    decreases k,
{
    if k <= 0 {
        0
    } else {
        weight_sum(k - 1) + spec_signal_weight(k - 1)
    }
}

/// Name of column `i`.
pub fn signal_name(i: usize) -> (r: &'static str)
    requires
        i < N_SIGNALS,
    ensures
        r@ == spec_signal_name(i as int),
{
    if i == 0 {
        "air"
    } else if i == 1 {
        "temperature"
    } else if i == 2 {
        "sea"
    } else if i == 3 {
        "uv"
    } else if i == 4 {
        "earthquake"
    } else if i == 5 {
        "fire"
    } else if i == 6 {
        "pollen"
    } else if i == 7 {
        "pressure"
    } else if i == 8 {
        "geomagnetic"
    } else if i == 9 {
        "daylight"
    } else {
        "moon"
    }
}

/// Weight of column `i` in hundredths.
pub fn signal_weight(i: usize) -> (r: u32)
    requires
        i < N_SIGNALS,
    ensures
        r == spec_signal_weight(i as int),
        r == SIGNAL_WEIGHTS[i as int],
{
    SIGNAL_WEIGHTS[i]
}

fn same_chars(a: &Vec<char>, b: &Vec<char>) -> (r: bool)
    ensures
        r == (a@ == b@),
{
    if a.len() != b.len() {
        return false;
    }
    for i in 0..a.len()
        invariant
            a.len() == b.len(),
            forall|j: int| 0 <= j < i ==> a@[j] == b@[j],
    {
        if a[i] != b[i] {
            return false;
        }
    }
    assert(a@ == b@);
    true
}

/// Position of the column called `name`, if any.
pub fn signal_index(name: &str) -> (r: Option<usize>)
    ensures
        r matches Some(i) ==> i < N_SIGNALS && spec_signal_name(i as int) == name@
            && forall|j: int| 0 <= j < i ==> spec_signal_name(j) != name@,
        r is None ==> forall|j: int| 0 <= j < N_SIGNALS ==> spec_signal_name(j) != name@,
{
    let target = chars_of(name);
    let mut i: usize = 0;
    while i < N_SIGNALS
        invariant
            i <= N_SIGNALS,
            target@ == name@,
            forall|j: int| 0 <= j < i ==> spec_signal_name(j) != name@,
        decreases N_SIGNALS - i,
    {
        let candidate = chars_of(signal_name(i));
        if same_chars(&candidate, &target) {
            return Some(i);
        }
        i = i + 1;
    }
    None
}

/// The weights add up to 88 hundredths (the moon column carries no weight), the weight and name
/// tables agree with the column definitions, and the column names are pairwise distinct.
pub proof fn law_signal_columns()
    ensures
        weight_sum(N_SIGNALS as int) == 88,
        spec_signal_weight(10) == 0,
        forall|i: int| 0 <= i < N_SIGNALS ==> spec_signal_weight(i) == SIGNAL_WEIGHTS[i],
        forall|i: int| 0 <= i < N_SIGNALS ==> (#[trigger] SIGNAL_NAMES[i])@ == spec_signal_name(i),
        forall|i: int, j: int|
            0 <= i < j < N_SIGNALS ==> spec_signal_name(i) != spec_signal_name(j),
{
    reveal_with_fuel(weight_sum, 12);
    reveal_strlit("air");
    reveal_strlit("temperature");
    reveal_strlit("sea");
    reveal_strlit("uv");
    reveal_strlit("earthquake");
    reveal_strlit("fire");
    reveal_strlit("pollen");
    reveal_strlit("pressure");
    reveal_strlit("geomagnetic");
    reveal_strlit("daylight");
    reveal_strlit("moon");
    assert forall|i: int, j: int| 0 <= i < j < N_SIGNALS implies spec_signal_name(i) != spec_signal_name(j) by {
        assert(spec_signal_name(i).len() != spec_signal_name(j).len()
            || spec_signal_name(i)[0] != spec_signal_name(j)[0]);
    }
}

} // verus!
