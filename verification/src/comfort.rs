//! Comfort score buckets and the text bar used to draw a score.

use vstd::prelude::*;
use crate::text::string_from_chars;

verus! {

/// Comfort index (0-100) with its sub-scores.
#[derive(Debug, Clone, Copy, PartialEq, Eq, Structural)]
pub struct ComfortScore {
    pub total: u32,
    pub air: u32,
    pub temperature: u32,
    pub wind: u32,
    pub uv: u32,
    pub pressure: u32,
    pub humidity: u32,
}

/// Name of the band a comfort total falls in (totals above 100 count as "Bad").
pub open spec fn spec_comfort_label(total: int) -> Seq<char> {
    if 80 <= total <= 100 {
        "Excellent"@
    } else if 60 <= total <= 79 {
        "Good"@
    } else if 40 <= total <= 59 {
        "Fair"@
    } else if 20 <= total <= 39 {
        "Poor"@
    } else {
        "Bad"@
    }
}

/// Emoji of the band a comfort total falls in.
pub open spec fn spec_comfort_emoji(total: int) -> Seq<char> {
    if 80 <= total <= 100 {
        "\u{1f7e2}"@
    } else if 60 <= total <= 79 {
        "\u{1f7e1}"@
    } else if 40 <= total <= 59 {
        "\u{1f7e0}"@
    } else if 20 <= total <= 39 {
        "\u{1f534}"@
    } else {
        "\u{1f7e4}"@
    }
}

/// Air sub-score of the comfort index for an overall AQI.
pub open spec fn spec_air_comfort(aqi: int) -> int {
    if aqi <= 25 {
        100
    } else if aqi <= 50 {
        80
    } else if aqi <= 100 {
        50
    } else if aqi <= 200 {
        20
    } else {
        0
    }
}

/// Number of filled cells of the ten-cell bar for `score`.
pub open spec fn bar_filled(score: int) -> int {
    if score / 10 >= 10 { 10 } else { score / 10 }
}

/// Ten-cell bar: `bar_filled(score)` full blocks, then light shade for the rest.
pub open spec fn spec_progress_bar(score: int) -> Seq<char> {
    Seq::new(bar_filled(score) as nat, |i: int| '\u{2588}') + Seq::new(
        (10 - bar_filled(score)) as nat,
        |i: int| '\u{2591}',
    )
}

impl ComfortScore {
    /// Name of the band the total falls in.
    pub fn label(&self) -> (r: &'static str)
        ensures
            r@ == spec_comfort_label(self.total as int),
    {
        let t = self.total;
        if 80 <= t && t <= 100 {
            "Excellent"
        } else if 60 <= t && t <= 79 {
            "Good"
        } else if 40 <= t && t <= 59 {
            "Fair"
        } else if 20 <= t && t <= 39 {
            "Poor"
        } else {
            "Bad"
        }
    }

    /// Emoji of the band the total falls in.
    pub fn emoji(&self) -> (r: &'static str)
        ensures
            r@ == spec_comfort_emoji(self.total as int),
    {
        let t = self.total;
        if 80 <= t && t <= 100 {
            "\u{1f7e2}"
        } else if 60 <= t && t <= 79 {
            "\u{1f7e1}"
        } else if 40 <= t && t <= 59 {
            "\u{1f7e0}"
        } else if 20 <= t && t <= 39 {
            "\u{1f534}"
        } else {
            "\u{1f7e4}"
        }
    }
}

/// Air sub-score (0, 20, 50, 80 or 100) for an overall AQI.
pub fn air_comfort_score(aqi: u32) -> (r: u32)
    ensures
        r == spec_air_comfort(aqi as int),
{
    if aqi <= 25 {
        100
    } else if aqi <= 50 {
        80
    } else if aqi <= 100 {
        50
    } else if aqi <= 200 {
        20
    } else {
        0
    }
}

/// Ten-cell bar drawing of a 0-100 score.
pub fn progress_bar(score: u32) -> (s: String)
    ensures
        s@ == spec_progress_bar(score as int),
        s@.len() == 10,
{
    let filled: u32 = if score / 10 >= 10 { 10 } else { score / 10 };
    let mut out: Vec<char> = Vec::new();
    let mut i: u32 = 0;
    while i < 10
        invariant
            0 <= i <= 10,
            filled == bar_filled(score as int),
            out@ == spec_progress_bar(score as int).take(i as int),
        decreases 10 - i,
    {
        if i < filled {
            out.push('\u{2588}');
        } else {
            out.push('\u{2591}');
        }
        i = i + 1;
        assert(out@ == spec_progress_bar(score as int).take(i as int));
    }
    assert(spec_progress_bar(score as int).take(10) == spec_progress_bar(score as int));
    string_from_chars(&out)
}

/// Dirtier air never earns a higher air sub-score: the sub-score falls as the AQI rises.
pub proof fn law_air_comfort_antitone(a: int, b: int)
    requires
        a <= b,
    ensures
        spec_air_comfort(b) <= spec_air_comfort(a),
{
}

} // verus!
