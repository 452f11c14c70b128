//! The run-level error taxonomy. Console reporting is presentation and
//! lives with the caller; the classification and each error's description
//! are fixed here.
use vstd::prelude::*;
use vstd::string::StringExecFns;

verus! {

/// A failure of one part of the analysis run.
#[derive(Debug)]
pub enum AnalysisError {
    GitHub(String),
    Parser(String),
    Processing(String),
    Persistence(String),
    Network(String),
    Configuration(String),
}

impl AnalysisError {
    /// The error's description, ready for reporting.
    pub fn message(&self) -> (r: String)
        ensures
            match self {
                AnalysisError::GitHub(m) => r@ == "GitHub API error: "@ + m@,
                AnalysisError::Parser(m) => r@ == "Parsing error: "@ + m@,
                AnalysisError::Processing(m) => r@ == "Processing error: "@ + m@,
                AnalysisError::Persistence(m) => r@ == "Persistence error: "@ + m@,
                AnalysisError::Network(m) => r@ == "Network error: "@ + m@,
                AnalysisError::Configuration(m) => r@ == "Configuration error: "@ + m@,
            },
    {
        match self {
            AnalysisError::GitHub(m) => String::from_str("GitHub API error: ").concat(m.as_str()),
            AnalysisError::Parser(m) => String::from_str("Parsing error: ").concat(m.as_str()),
            AnalysisError::Processing(m) => String::from_str("Processing error: ").concat(
                m.as_str(),
            ),
            AnalysisError::Persistence(m) => String::from_str("Persistence error: ").concat(
                m.as_str(),
            ),
            AnalysisError::Network(m) => String::from_str("Network error: ").concat(m.as_str()),
            AnalysisError::Configuration(m) => String::from_str("Configuration error: ").concat(
                m.as_str(),
            ),
        }
    }
}

} // verus!
