//! Review records.
use vstd::prelude::*;

verus! {

/// How risky a change or an issue is.
#[derive(Debug, Clone, Copy, PartialEq, Eq, Structural)]
pub enum RiskLevel {
    Low,
    Medium,
    High,
}

impl RiskLevel {
    pub open spec fn text(self) -> Seq<char> {
        match self {
            RiskLevel::Low => "LOW"@,
            RiskLevel::Medium => "MEDIUM"@,
            RiskLevel::High => "HIGH"@,
        }
    }

    /// The level in capitals, as it is displayed.
    pub fn as_text(&self) -> (r: &'static str)
        ensures
            r@ == self.text(),
    {
        match self {
            RiskLevel::Low => "LOW",
            RiskLevel::Medium => "MEDIUM",
            RiskLevel::High => "HIGH",
        }
    }
}

/// One issue a review raises.
#[derive(Debug, Clone)]
pub struct ReviewIssue {
    pub severity: RiskLevel,
    pub description: String,
    pub suggestion: Option<String>,
}

/// A review of a change or of a whole diff.
#[derive(Debug, Clone)]
pub struct ReviewResult {
    pub summary: String,
    pub risk_level: RiskLevel,
    pub key_observations: Vec<String>,
    pub potential_issues: Vec<ReviewIssue>,
    pub test_suggestions: Vec<String>,
}

impl Default for ReviewResult {
    /// A review that has not been performed: low risk, nothing observed.
    fn default() -> (r: ReviewResult)
        ensures
            r.summary@ == "Review not yet performed."@,
            r.risk_level == RiskLevel::Low,
            r.key_observations@.len() == 0,
            r.potential_issues@.len() == 0,
            r.test_suggestions@.len() == 0,
    {
        ReviewResult {
            summary: String::from_str("Review not yet performed."),
            risk_level: RiskLevel::Low,
            key_observations: Vec::new(),
            potential_issues: Vec::new(),
            test_suggestions: Vec::new(),
        }
    }
}

} // verus!
