//! Importer configurations, their state and their run reports.

use vstd::prelude::*;

verus! {

/// Whether an importer is idle or running.
#[derive(Clone, Copy, Debug, PartialEq, Eq, Structural)]
pub enum State {
    Waiting,
    Running,
}

/// Settings that every kind of importer has. The period is in seconds.
#[derive(Clone, Copy, Debug, PartialEq, Eq, Structural)]
pub struct CommonImporter {
    pub disabled: bool,
    pub period: u64,
}

/// An importer of SBOMs from a source URL or path.
pub struct SbomImporter {
    pub common: CommonImporter,
    pub source: String,
    /// URLs of the signing keys.
    pub keys: Vec<String>,
    pub v3_signatures: bool,
    pub only_patterns: Vec<String>,
}

impl SbomImporter {
    pub fn common(&self) -> (r: &CommonImporter)
        ensures
            *r == self.common,
    {
        &self.common
    }

    pub fn common_mut(&mut self) -> (r: &mut CommonImporter)
        ensures
            *r == old(self).common,
            final(self).common == *final(r),
            final(self).source == old(self).source,
            final(self).keys == old(self).keys,
            final(self).v3_signatures == old(self).v3_signatures,
            final(self).only_patterns == old(self).only_patterns,
    {
        &mut self.common
    }
}

/// The configuration of an importer, one variant per kind of source.
pub enum ImporterConfiguration {
    Sbom(SbomImporter),
}

impl ImporterConfiguration {
    pub open spec fn spec_common(&self) -> CommonImporter {
        match self {
            ImporterConfiguration::Sbom(i) => i.common,
        }
    }

    /// The settings that every kind of importer has.
    pub fn common(&self) -> (r: &CommonImporter)
        ensures
            *r == self.spec_common(),
    {
        match self {
            ImporterConfiguration::Sbom(importer) => &importer.common,
        }
    }
}

/// The state of an importer. Times are seconds since the Unix epoch.
pub struct ImporterData {
    pub configuration: ImporterConfiguration,
    /// The current state of the importer.
    pub state: State,
    /// The last state change.
    pub last_change: i64,
    /// The last successful run.
    pub last_success: Option<i64>,
    /// The last run, successful or not.
    pub last_run: Option<i64>,
    /// The error of the last run, none if it succeeded.
    pub last_error: Option<String>,
}

pub struct Importer {
    pub name: String,
    pub data: ImporterData,
}

/// A value together with the revision it was read at.
pub struct Revisioned<T> {
    pub value: T,
    pub revision: String,
}

/// The report of one importer run; `report` is its structured text.
pub struct ImporterReport {
    pub id: String,
    pub importer: String,
    pub creation: i64,
    pub error: Option<String>,
    pub report: String,
}

} // verus!
