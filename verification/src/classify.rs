//! Qualitative crowd-level descriptors.
//!
//! `classify` is total: every percentage falls in exactly one band.
//! Thresholds are left-inclusive: below 20 is very low, below 40 low,
//! below 60 moderate, below 80 high, and everything else very high.

use vstd::prelude::*;
use crate::percent::Percentage;

verus! {

/// Qualitative descriptor for a crowd percentage.
#[derive(Clone, Copy, PartialEq, Eq, Structural, Debug)]
pub enum Descriptor {
    VeryLow,
    Low,
    Moderate,
    High,
    VeryHigh,
}

/// The band a percentage (in hundredths) falls in.
pub open spec fn classify_spec(hundredths: int) -> Descriptor {
    if hundredths < 2000 {
        Descriptor::VeryLow
    } else if hundredths < 4000 {
        Descriptor::Low
    } else if hundredths < 6000 {
        Descriptor::Moderate
    } else if hundredths < 8000 {
        Descriptor::High
    } else {
        Descriptor::VeryHigh
    }
}

/// Maps a percentage to its descriptor.
pub fn classify(p: &Percentage) -> (d: Descriptor)
    ensures
        d == classify_spec(p.hundredths as int),
{
    if p.hundredths < 2000 {
        Descriptor::VeryLow
    } else if p.hundredths < 4000 {
        Descriptor::Low
    } else if p.hundredths < 6000 {
        Descriptor::Moderate
    } else if p.hundredths < 8000 {
        Descriptor::High
    } else {
        Descriptor::VeryHigh
    }
}

/// Every percentage on the scale falls in exactly one band, each band
/// left-inclusive and right-exclusive, with the top band closed at 100.
pub proof fn lemma_classify_bands(hundredths: int)
    requires
        0 <= hundredths <= 10000,
    ensures
        classify_spec(hundredths) == Descriptor::VeryLow <==> 0 <= hundredths < 2000,
        classify_spec(hundredths) == Descriptor::Low <==> 2000 <= hundredths < 4000,
        classify_spec(hundredths) == Descriptor::Moderate <==> 4000 <= hundredths < 6000,
        classify_spec(hundredths) == Descriptor::High <==> 6000 <= hundredths < 8000,
        classify_spec(hundredths) == Descriptor::VeryHigh <==> 8000 <= hundredths <= 10000,
{
}

impl Descriptor {
    /// The descriptor's display text.
    pub fn text(&self) -> (r: &'static str)
        ensures
            *self == Descriptor::VeryLow ==> r@ == "Very low"@,
            *self == Descriptor::Low ==> r@ == "Low"@,
            *self == Descriptor::Moderate ==> r@ == "Moderate"@,
            *self == Descriptor::High ==> r@ == "High"@,
            *self == Descriptor::VeryHigh ==> r@ == "Very high"@,
    {
        match self {
            Descriptor::VeryLow => "Very low",
            Descriptor::Low => "Low",
            Descriptor::Moderate => "Moderate",
            Descriptor::High => "High",
            Descriptor::VeryHigh => "Very high",
        }
    }
}

} // verus!
