//! US EPA AQI categories and how they are presented.

use vstd::prelude::*;

verus! {

/// EPA AQI category bands.
#[derive(Debug, Clone, Copy, PartialEq, Eq, Structural)]
pub enum AqiCategory {
    /// 0-50
    Good,
    /// 51-100
    Moderate,
    /// 101-150
    UnhealthySensitive,
    /// 151-200
    Unhealthy,
    /// 201-300
    VeryUnhealthy,
    /// 301 and above
    Hazardous,
}

/// Terminal colour used to print a category.
#[derive(Debug, Clone, Copy, PartialEq, Eq, Structural)]
pub enum TermColor {
    Green,
    Yellow,
    Red,
    Purple,
    /// 24-bit colour.
    Rgb(u8, u8, u8),
}

/// The category band of an AQI value.
pub open spec fn spec_category_of(aqi: int) -> AqiCategory {
    if aqi <= 50 {
        AqiCategory::Good
    } else if aqi <= 100 {
        AqiCategory::Moderate
    } else if aqi <= 150 {
        AqiCategory::UnhealthySensitive
    } else if aqi <= 200 {
        AqiCategory::Unhealthy
    } else if aqi <= 300 {
        AqiCategory::VeryUnhealthy
    } else {
        AqiCategory::Hazardous
    }
}

/// Severity rank of a category, from 0 (Good) to 5 (Hazardous).
pub open spec fn category_rank(c: AqiCategory) -> int {
    match c {
        AqiCategory::Good => 0,
        AqiCategory::Moderate => 1,
        AqiCategory::UnhealthySensitive => 2,
        AqiCategory::Unhealthy => 3,
        AqiCategory::VeryUnhealthy => 4,
        AqiCategory::Hazardous => 5,
    }
}

/// Human-readable name of a category.
pub open spec fn spec_label(c: AqiCategory) -> Seq<char> {
    match c {
        AqiCategory::Good => "Good"@,
        AqiCategory::Moderate => "Moderate"@,
        AqiCategory::UnhealthySensitive => "Unhealthy for Sensitive Groups"@,
        AqiCategory::Unhealthy => "Unhealthy"@,
        AqiCategory::VeryUnhealthy => "Very Unhealthy"@,
        AqiCategory::Hazardous => "Hazardous"@,
    }
}

/// Coloured-circle emoji of a category.
pub open spec fn spec_emoji(c: AqiCategory) -> Seq<char> {
    match c {
        AqiCategory::Good => "\u{1f7e2}"@,
        AqiCategory::Moderate => "\u{1f7e1}"@,
        AqiCategory::UnhealthySensitive => "\u{1f7e0}"@,
        AqiCategory::Unhealthy => "\u{1f534}"@,
        AqiCategory::VeryUnhealthy => "\u{1f7e3}"@,
        AqiCategory::Hazardous => "\u{1f7e4}"@,
    }
}

/// Web colour of a category.
pub open spec fn spec_color_hex(c: AqiCategory) -> Seq<char> {
    match c {
        AqiCategory::Good => "#00c853"@,
        AqiCategory::Moderate => "#ffc107"@,
        AqiCategory::UnhealthySensitive => "#ff9800"@,
        AqiCategory::Unhealthy => "#f44336"@,
        AqiCategory::VeryUnhealthy => "#9c27b0"@,
        AqiCategory::Hazardous => "#800000"@,
    }
}

/// CSS class of a category in the HTML report.
pub open spec fn spec_css_class(c: AqiCategory) -> Seq<char> {
    match c {
        AqiCategory::Good => "good"@,
        AqiCategory::Moderate => "moderate"@,
        AqiCategory::UnhealthySensitive => "unhealthy-sensitive"@,
        AqiCategory::Unhealthy => "unhealthy"@,
        AqiCategory::VeryUnhealthy => "very-unhealthy"@,
        AqiCategory::Hazardous => "hazardous"@,
    }
}

/// Terminal colour of a category.
pub open spec fn spec_term_color(c: AqiCategory) -> TermColor {
    match c {
        AqiCategory::Good => TermColor::Green,
        AqiCategory::Moderate => TermColor::Yellow,
        AqiCategory::UnhealthySensitive => TermColor::Rgb(255, 165, 0),
        AqiCategory::Unhealthy => TermColor::Red,
        AqiCategory::VeryUnhealthy => TermColor::Purple,
        AqiCategory::Hazardous => TermColor::Rgb(128, 0, 0),
    }
}

impl AqiCategory {
    /// Category band of an AQI value.
    pub fn from_aqi(aqi: u32) -> (c: Self)
        ensures
            c == spec_category_of(aqi as int),
    {
        if aqi <= 50 {
            AqiCategory::Good
        } else if aqi <= 100 {
            AqiCategory::Moderate
        } else if aqi <= 150 {
            AqiCategory::UnhealthySensitive
        } else if aqi <= 200 {
            AqiCategory::Unhealthy
        } else if aqi <= 300 {
            AqiCategory::VeryUnhealthy
        } else {
            AqiCategory::Hazardous
        }
    }

    /// Human-readable name.
    pub fn label(&self) -> (r: &'static str)
        ensures
            r@ == spec_label(*self),
    {
        match self {
            AqiCategory::Good => "Good",
            AqiCategory::Moderate => "Moderate",
            AqiCategory::UnhealthySensitive => "Unhealthy for Sensitive Groups",
            AqiCategory::Unhealthy => "Unhealthy",
            AqiCategory::VeryUnhealthy => "Very Unhealthy",
            AqiCategory::Hazardous => "Hazardous",
        }
    }

    /// Coloured-circle emoji.
    pub fn emoji(&self) -> (r: &'static str)
        ensures
            r@ == spec_emoji(*self),
    {
        match self {
            AqiCategory::Good => "\u{1f7e2}",
            AqiCategory::Moderate => "\u{1f7e1}",
            AqiCategory::UnhealthySensitive => "\u{1f7e0}",
            AqiCategory::Unhealthy => "\u{1f534}",
            AqiCategory::VeryUnhealthy => "\u{1f7e3}",
            AqiCategory::Hazardous => "\u{1f7e4}",
        }
    }

    /// Colour as a hex string (for web pages).
    pub fn color_hex(&self) -> (r: &'static str)
        ensures
            r@ == spec_color_hex(*self),
    {
        match self {
            AqiCategory::Good => "#00c853",
            AqiCategory::Moderate => "#ffc107",
            AqiCategory::UnhealthySensitive => "#ff9800",
            AqiCategory::Unhealthy => "#f44336",
            AqiCategory::VeryUnhealthy => "#9c27b0",
            AqiCategory::Hazardous => "#800000",
        }
    }

    /// CSS class of this category in the HTML report.
    pub fn css_class(&self) -> (r: &'static str)
        ensures
            r@ == spec_css_class(*self),
    {
        match self {
            AqiCategory::Good => "good",
            AqiCategory::Moderate => "moderate",
            AqiCategory::UnhealthySensitive => "unhealthy-sensitive",
            AqiCategory::Unhealthy => "unhealthy",
            AqiCategory::VeryUnhealthy => "very-unhealthy",
            AqiCategory::Hazardous => "hazardous",
        }
    }

    /// Colour used when printing this category on a terminal.
    pub fn term_color(&self) -> (r: TermColor)
        ensures
            r == spec_term_color(*self),
    {
        match self {
            AqiCategory::Good => TermColor::Green,
            AqiCategory::Moderate => TermColor::Yellow,
            AqiCategory::UnhealthySensitive => TermColor::Rgb(255, 165, 0),
            AqiCategory::Unhealthy => TermColor::Red,
            AqiCategory::VeryUnhealthy => TermColor::Purple,
            AqiCategory::Hazardous => TermColor::Rgb(128, 0, 0),
        }
    }
}

/// Overall AQI: the larger of the pollutant AQIs that are present.
pub open spec fn spec_overall(pm25: Option<u32>, pm10: Option<u32>) -> Option<u32> {
    match (pm25, pm10) {
        (Some(a), Some(b)) => Some(if a >= b { a } else { b }),
        (Some(a), None) => Some(a),
        (None, Some(b)) => Some(b),
        (None, None) => None,
    }
}

/// Overall AQI from the per-pollutant AQIs (PM2.5, PM10): the larger of those present.
pub fn overall_from_parts(pm25: Option<u32>, pm10: Option<u32>) -> (r: Option<u32>)
    ensures
        r == spec_overall(pm25, pm10),
{
    let mut max_aqi: Option<u32> = None;
    if let Some(a) = pm25 {
        max_aqi = Some(a);
    }
    if let Some(b) = pm10 {
        max_aqi = Some(
            match max_aqi {
                Some(m) => if m >= b { m } else { b },
                None => b,
            },
        );
    }
    max_aqi
}

/// A higher AQI never falls into a milder category.
pub proof fn law_category_monotone(a: int, b: int)
    requires
        a <= b,
    ensures
        category_rank(spec_category_of(a)) <= category_rank(spec_category_of(b)),
{
}

/// The overall AQI is present exactly when some pollutant AQI is, is at least every
/// present pollutant AQI, and is one of them.
pub proof fn law_overall_is_max(pm25: Option<u32>, pm10: Option<u32>)
    ensures
        ({
            let r = spec_overall(pm25, pm10);
            &&& r is Some <==> (pm25 is Some || pm10 is Some)
            &&& pm25 matches Some(a) ==> r.unwrap() >= a
            &&& pm10 matches Some(b) ==> r.unwrap() >= b
            &&& r matches Some(v) ==> (pm25 == Some(v) || pm10 == Some(v))
        }),
{
}

/// Labels are the EPA category names, by AQI band: 0-50 "Good", 51-100 "Moderate", 101-150
/// "Unhealthy for Sensitive Groups", 151-200 "Unhealthy", 201-300 "Very Unhealthy", above 300
/// "Hazardous".
pub proof fn law_label_of_aqi(aqi: int)
    ensures
        aqi <= 50 ==> spec_label(spec_category_of(aqi)) == "Good"@,
        51 <= aqi <= 100 ==> spec_label(spec_category_of(aqi)) == "Moderate"@,
        101 <= aqi <= 150 ==> spec_label(spec_category_of(aqi)) == "Unhealthy for Sensitive Groups"@,
        151 <= aqi <= 200 ==> spec_label(spec_category_of(aqi)) == "Unhealthy"@,
        201 <= aqi <= 300 ==> spec_label(spec_category_of(aqi)) == "Very Unhealthy"@,
        300 < aqi ==> spec_label(spec_category_of(aqi)) == "Hazardous"@,
{
}

/// Labels tell categories apart: two categories with the same label are the same category.
pub proof fn law_labels_distinct(a: AqiCategory, b: AqiCategory)
    ensures
        spec_label(a) == spec_label(b) ==> a == b,
{
    reveal_strlit("Good");
    reveal_strlit("Moderate");
    reveal_strlit("Unhealthy for Sensitive Groups");
    reveal_strlit("Unhealthy");
    reveal_strlit("Very Unhealthy");
    reveal_strlit("Hazardous");
    if spec_label(a) == spec_label(b) && a != b {
        assert(spec_label(a).len() != spec_label(b).len() || spec_label(a)[0] != spec_label(b)[0]);
    }
}

/// How each AQI band is shown: emoji, web colour, CSS class and terminal colour, from green
/// (0-50) through yellow, orange, red and purple to maroon (above 300).
pub proof fn law_presentation_of_aqi(aqi: int)
    ensures
        ({
            let c = spec_category_of(aqi);
            &&& aqi <= 50 ==> spec_emoji(c) == "\u{1f7e2}"@ && spec_color_hex(c) == "#00c853"@
                && spec_css_class(c) == "good"@ && spec_term_color(c) == TermColor::Green
            &&& 51 <= aqi <= 100 ==> spec_emoji(c) == "\u{1f7e1}"@ && spec_color_hex(c) == "#ffc107"@
                && spec_css_class(c) == "moderate"@ && spec_term_color(c) == TermColor::Yellow
            &&& 101 <= aqi <= 150 ==> spec_emoji(c) == "\u{1f7e0}"@ && spec_color_hex(c) == "#ff9800"@
                && spec_css_class(c) == "unhealthy-sensitive"@
                && spec_term_color(c) == TermColor::Rgb(255, 165, 0)
            &&& 151 <= aqi <= 200 ==> spec_emoji(c) == "\u{1f534}"@ && spec_color_hex(c) == "#f44336"@
                && spec_css_class(c) == "unhealthy"@ && spec_term_color(c) == TermColor::Red
            &&& 201 <= aqi <= 300 ==> spec_emoji(c) == "\u{1f7e3}"@ && spec_color_hex(c) == "#9c27b0"@
                && spec_css_class(c) == "very-unhealthy"@ && spec_term_color(c) == TermColor::Purple
            &&& 300 < aqi ==> spec_emoji(c) == "\u{1f7e4}"@ && spec_color_hex(c) == "#800000"@
                && spec_css_class(c) == "hazardous"@ && spec_term_color(c) == TermColor::Rgb(128, 0, 0)
        }),
{
}

} // verus!
