//! Detector metadata: the plain description records that external
//! tooling serializes for custom detector sets.

use vstd::prelude::*;
use crate::detector::{
    spec_any_description, spec_any_severity, spec_any_title, AnyDetector, IssueSeverity,
};

verus! {

/// One custom detector's description record.
pub struct CustomBot {
    pub severity: String,
    pub title: String,
    pub description: String,
}

/// The description records of a custom detector set.
pub struct Metadata {
    pub custom_bots: Vec<CustomBot>,
}

/// The short name of a severity tier as metadata spells it.
pub open spec fn spec_short_severity(s: IssueSeverity) -> Seq<char> {
    match s {
        IssueSeverity::Critical => "Critical"@,
        IssueSeverity::High => "High"@,
        IssueSeverity::Low => "Low"@,
        IssueSeverity::Medium => "Medium"@,
        IssueSeverity::NC => "NC"@,
    }
}

/// The custom detectors of this crate: none are registered.
pub fn custom_detectors() -> (r: Vec<AnyDetector>)
    ensures
        r@.len() == 0,
{
    Vec::new()
}

impl Metadata {
    /// Builds the description records of a detector set, one per
    /// detector in order, spelling its severity, title and description.
    #[verifier::loop_isolation(false)]
    pub fn from_detectors(detectors: &Vec<AnyDetector>) -> (r: Metadata)
        ensures
            r.custom_bots@.len() == detectors@.len(),
            forall|i: int|
                0 <= i < detectors@.len() ==> {
                    let bot = #[trigger] r.custom_bots@[i];
                    &&& bot.severity@ == spec_short_severity(spec_any_severity(detectors@[i]))
                    &&& bot.title@ == spec_any_title(detectors@[i])
                    &&& bot.description@ == spec_any_description(detectors@[i])
                },
    {
        let mut custom_bots: Vec<CustomBot> = Vec::new();
        let mut i: usize = 0;
        while i < detectors.len()
            invariant
                0 <= i <= detectors@.len(),
                custom_bots@.len() == i,
                forall|i2: int|
                    0 <= i2 < i ==> {
                        let bot = #[trigger] custom_bots@[i2];
                        &&& bot.severity@ == spec_short_severity(spec_any_severity(detectors@[i2]))
                        &&& bot.title@ == spec_any_title(detectors@[i2])
                        &&& bot.description@ == spec_any_description(detectors@[i2])
                    },
            decreases detectors@.len() - i,
        {
            let d = &detectors[i];
            let severity = match d.severity() {
                IssueSeverity::Critical => String::from_str("Critical"),
                IssueSeverity::High => String::from_str("High"),
                IssueSeverity::Low => String::from_str("Low"),
                IssueSeverity::Medium => String::from_str("Medium"),
                IssueSeverity::NC => String::from_str("NC"),
            };
            custom_bots.push(
                CustomBot { severity, title: d.title(), description: d.description() },
            );
            i = i + 1;
        }
        Metadata { custom_bots }
    }
}

} // verus!
