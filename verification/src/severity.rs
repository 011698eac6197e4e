//! The colour bands of the dashboard: temperatures and loads are shown green,
//! yellow or red by thresholds.

use vstd::prelude::*;

verus! {

/// A colour band: green, yellow or red on the dashboard.
#[derive(PartialEq, Eq, Structural, Clone, Copy, Debug)]
pub enum Severity {
    Normal,
    Elevated,
    Critical,
}

/// The position of a band in the order green < yellow < red.
pub open spec fn rank(s: Severity) -> int {
    match s {
        Severity::Normal => 0,
        Severity::Elevated => 1,
        Severity::Critical => 2,
    }
}

/// The band of a temperature in whole degrees Celsius: up to 60 green, up to
/// 85 yellow, above that red.
pub open spec fn temp_band(degrees: u64) -> Severity {
    if degrees <= 60 {
        Severity::Normal
    } else if degrees <= 85 {
        Severity::Elevated
    } else {
        Severity::Critical
    }
}

/// The band of a load in percent: up to 40 green, up to 80 yellow, above that red.
pub open spec fn load_band(pct: u64) -> Severity {
    if pct <= 40 {
        Severity::Normal
    } else if pct <= 80 {
        Severity::Elevated
    } else {
        Severity::Critical
    }
}

/// The band of a temperature in whole degrees Celsius.
pub fn temp_severity(degrees: u64) -> (s: Severity)
    ensures
        s == temp_band(degrees),
{
    if degrees <= 60 {
        Severity::Normal
    } else if degrees <= 85 {
        Severity::Elevated
    } else {
        Severity::Critical
    }
}

/// The band of a load in percent.
pub fn load_severity(pct: u64) -> (s: Severity)
    ensures
        s == load_band(pct),
{
    if pct <= 40 {
        Severity::Normal
    } else if pct <= 80 {
        Severity::Elevated
    } else {
        Severity::Critical
    }
}

/// A hotter card is never shown in a milder band.
pub proof fn law_temp_band_monotone(a: u64, b: u64)
    requires
        a <= b,
    ensures
        rank(temp_band(a)) <= rank(temp_band(b)),
{
}

/// A busier engine is never shown in a milder band.
pub proof fn law_load_band_monotone(a: u64, b: u64)
    requires
        a <= b,
    ensures
        rank(load_band(a)) <= rank(load_band(b)),
{
}

/// The temperature bands: green up to 60 °C, yellow from 61 to 85 °C, red
/// above 85 °C.
pub proof fn law_temp_band_thresholds(d: u64)
    ensures
        d <= 60 ==> temp_band(d) == Severity::Normal,
        61 <= d <= 85 ==> temp_band(d) == Severity::Elevated,
        d > 85 ==> temp_band(d) == Severity::Critical,
{
}

/// The load bands: green up to 40 %, yellow from 41 to 80 %, red above 80 %.
pub proof fn law_load_band_thresholds(p: u64)
    ensures
        p <= 40 ==> load_band(p) == Severity::Normal,
        41 <= p <= 80 ==> load_band(p) == Severity::Elevated,
        p > 80 ==> load_band(p) == Severity::Critical,
{
}

} // verus!
