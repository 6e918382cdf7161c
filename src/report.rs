//! Messages gathered while a document is processed.

use vstd::prelude::*;

verus! {

/// Collects the non-fatal warnings and the per-document errors of a run.
pub struct Report {
    pub warnings: Vec<String>,
    pub errors: Vec<String>,
}

impl Report {
    pub fn new() -> (r: Report)
        ensures
            r.warnings@.len() == 0,
            r.errors@.len() == 0,
    {
        Report { warnings: Vec::new(), errors: Vec::new() }
    }

    /// Records a non-fatal warning.
    pub fn warning(&mut self, message: String)
        ensures
            final(self).warnings@ == old(self).warnings@.push(message),
            final(self).errors@ == old(self).errors@,
    {
        self.warnings.push(message);
    }

    /// Records a per-document error.
    pub fn error(&mut self, message: String)
        ensures
            final(self).errors@ == old(self).errors@.push(message),
            final(self).warnings@ == old(self).warnings@,
    {
        self.errors.push(message);
    }
}

} // verus!
