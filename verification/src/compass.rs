//! Compass sector names and arrows, by sector number counted clockwise from north.

use vstd::prelude::*;

verus! {

/// Name of 16-point sector `i` (0 = N, 1 = NNE, ..., 15 = NNW); later numbers count as NNW.
pub open spec fn spec_compass16(i: int) -> Seq<char> {
    if i == 0 {
        "N"@
    } else if i == 1 {
        "NNE"@
    } else if i == 2 {
        "NE"@
    } else if i == 3 {
        "ENE"@
    } else if i == 4 {
        "E"@
    } else if i == 5 {
        "ESE"@
    } else if i == 6 {
        "SE"@
    } else if i == 7 {
        "SSE"@
    } else if i == 8 {
        "S"@
    } else if i == 9 {
        "SSW"@
    } else if i == 10 {
        "SW"@
    } else if i == 11 {
        "WSW"@
    } else if i == 12 {
        "W"@
    } else if i == 13 {
        "WNW"@
    } else if i == 14 {
        "NW"@
    } else {
        "NNW"@
    }
}

/// Name of 8-point sector `i` (0 = N, 1 = NE, ..., 7 = NW); later numbers count as NW.
pub open spec fn spec_compass8(i: int) -> Seq<char> {
    if i == 0 {
        "N"@
    } else if i == 1 {
        "NE"@
    } else if i == 2 {
        "E"@
    } else if i == 3 {
        "SE"@
    } else if i == 4 {
        "S"@
    } else if i == 5 {
        "SW"@
    } else if i == 6 {
        "W"@
    } else {
        "NW"@
    }
}

/// Arrow pointing the way a movement towards 8-point sector `i` goes (0 = up).
pub open spec fn spec_heading_arrow(i: int) -> Seq<char> {
    if i == 0 {
        "\u{2191}"@
    } else if i == 1 {
        "\u{2197}"@
    } else if i == 2 {
        "\u{2192}"@
    } else if i == 3 {
        "\u{2198}"@
    } else if i == 4 {
        "\u{2193}"@
    } else if i == 5 {
        "\u{2199}"@
    } else if i == 6 {
        "\u{2190}"@
    } else {
        "\u{2196}"@
    }
}

/// Arrow for a wind blowing from 8-point sector `i`: it points the way the air moves, opposite
/// to the sector.
pub open spec fn spec_wind_arrow(i: int) -> Seq<char> {
    spec_heading_arrow(if i >= 7 { 3 } else if i >= 4 { i - 4 } else { i + 4 })
}

/// Name of 16-point compass sector `sector` (clamped to 15).
pub fn compass16(sector: usize) -> (r: &'static str)
    ensures
        r@ == spec_compass16(sector as int),
{
    match sector {
        0 => "N",
        1 => "NNE",
        2 => "NE",
        3 => "ENE",
        4 => "E",
        5 => "ESE",
        6 => "SE",
        7 => "SSE",
        8 => "S",
        9 => "SSW",
        10 => "SW",
        11 => "WSW",
        12 => "W",
        13 => "WNW",
        14 => "NW",
        _ => "NNW",
    }
}

/// Name of 8-point compass sector `sector` (clamped to 7).
pub fn compass8(sector: usize) -> (r: &'static str)
    ensures
        r@ == spec_compass8(sector as int),
{
    match sector {
        0 => "N",
        1 => "NE",
        2 => "E",
        3 => "SE",
        4 => "S",
        5 => "SW",
        6 => "W",
        _ => "NW",
    }
}

/// Arrow for a movement towards 8-point sector `sector` (clamped to 7).
pub fn heading_arrow(sector: usize) -> (r: &'static str)
    ensures
        r@ == spec_heading_arrow(sector as int),
{
    match sector {
        0 => "\u{2191}",
        1 => "\u{2197}",
        2 => "\u{2192}",
        3 => "\u{2198}",
        4 => "\u{2193}",
        5 => "\u{2199}",
        6 => "\u{2190}",
        _ => "\u{2196}",
    }
}

/// Arrow for a wind blowing from 8-point sector `sector` (clamped to 7).
pub fn wind_arrow(sector: usize) -> (r: &'static str)
    ensures
        r@ == spec_wind_arrow(sector as int),
{
    match sector {
        0 => "\u{2193}",
        1 => "\u{2199}",
        2 => "\u{2190}",
        3 => "\u{2196}",
        4 => "\u{2191}",
        5 => "\u{2197}",
        6 => "\u{2192}",
        _ => "\u{2198}",
    }
}

/// A wind from a sector moves towards the opposite one: its arrow is the heading arrow four
/// sectors round.
pub proof fn law_wind_arrow_opposite(i: int)
    requires
        0 <= i < 8,
    ensures
        spec_wind_arrow(i) == spec_heading_arrow((i + 4) % 8),
{
}

} // verus!
