//! The slice of a security advisory this engine consumes: its version
//! requirements, plus the metadata the report generator reads.

use vstd::prelude::*;

use crate::range::VersionReq;

verus! {

/// The class of an informational advisory.
#[derive(Clone, Copy, PartialEq, Eq, Structural, Debug)]
pub enum Informational {
    Notice,
    Unmaintained,
    Unsound,
    Other,
}

/// A qualitative severity rating.
#[derive(Clone, Copy, PartialEq, Eq, Structural, Debug)]
pub enum Severity {
    Low,
    Medium,
    High,
    Critical,
}

/// Rank of a severity, for threshold comparisons.
pub open spec fn severity_rank(s: Severity) -> int {
    match s {
        Severity::Low => 1,
        Severity::Medium => 2,
        Severity::High => 3,
        Severity::Critical => 4,
    }
}

/// Rank of a severity, decided executably.
pub fn severity_rank_of(s: Severity) -> (r: u8)
    ensures
        r as int == severity_rank(s),
{
    match s {
        Severity::Low => 1,
        Severity::Medium => 2,
        Severity::High => 3,
        Severity::Critical => 4,
    }
}

/// The metadata of an advisory that range export and reporting read.
pub struct AdvisoryMetadata {
    /// The advisory's identifier, which also names the exported artifact.
    pub id: String,
    /// The name of the affected package.
    pub package: String,
    /// One-line description of the vulnerability.
    pub title: String,
    /// Set when the advisory is informational rather than a vulnerability.
    pub informational: Option<Informational>,
    /// Severity of the advisory, when scored.
    pub severity: Option<Severity>,
    /// URL with more information, when one is known.
    pub url: Option<String>,
}

/// The version requirements of one advisory.
pub struct AdvisoryVersions {
    /// Requirements describing patched versions.
    pub patched: Vec<VersionReq>,
    /// Requirements describing versions never affected.
    pub unaffected: Vec<VersionReq>,
}

/// One security advisory.
pub struct Advisory {
    pub metadata: AdvisoryMetadata,
    pub versions: AdvisoryVersions,
}

} // verus!
