//! The importer store: importers and their run reports, every change checked
//! against the revision the caller last saw.

use vstd::prelude::*;
use crate::model::{Importer, ImporterConfiguration, ImporterData, ImporterReport, Revisioned, State};
use crate::text::str_eq;

verus! {

#[derive(Debug)]
pub enum ServiceError {
    AlreadyExists(String),
    NotFound(String),
    /// The importer changed since the caller read it.
    MidAirCollision,
}

impl ServiceError {
    /// The HTTP status that reports the error: 409 for an importer that
    /// exists already, 404 for one that does not, 412 for a collision.
    pub fn status_code(&self) -> (r: u16)
        ensures
            r == match self {
                ServiceError::AlreadyExists(_) => 409u16,
                ServiceError::NotFound(_) => 404u16,
                ServiceError::MidAirCollision => 412u16,
            },
    {
        match self {
            ServiceError::AlreadyExists(_) => 409,
            ServiceError::NotFound(_) => 404,
            ServiceError::MidAirCollision => 412,
        }
    }
}

pub type Row = Revisioned<Importer>;

pub open spec fn opt_str(o: Option<&str>) -> Option<Seq<char>> {
    match o {
        Some(s) => Some(s@),
        None => None,
    }
}

/// Whether an importer of that name is held.
pub open spec fn found(rows: Seq<Row>, name: Seq<char>) -> bool {
    exists|i: int| 0 <= i < rows.len() && (#[trigger] rows[i]).value.name@ == name
}

/// Whether the importer of that name is at the expected revision (any
/// revision, where none is expected).
pub open spec fn revision_matches(rows: Seq<Row>, name: Seq<char>, expected: Option<Seq<char>>) -> bool {
    forall|i: int| 0 <= i < rows.len() && (#[trigger] rows[i]).value.name@ == name ==>
        match expected {
            Some(e) => rows[i].revision@ == e,
            None => true,
        }
}

/// Reports from newest to oldest.
pub open spec fn newest_first(reports: Seq<ImporterReport>) -> bool {
    forall|i: int, j: int| 0 <= i < j < reports.len() ==> (#[trigger] reports[i]).creation >= (#[trigger] reports[j]).creation
}

/// Importers, each name once, and their reports, newest first.
pub struct ImporterService {
    pub importers: Vec<Row>,
    pub reports: Vec<ImporterReport>,
}

/// One page of a listing, and how many items there are in all.
pub struct PaginatedResults<T> {
    pub items: Vec<T>,
    pub total: usize,
}

impl ImporterService {
    pub open spec fn wf(&self) -> bool {
        &&& forall|i: int, j: int| 0 <= i < j < self.importers@.len()
            ==> (#[trigger] self.importers@[i]).value.name@ != (#[trigger] self.importers@[j]).value.name@
        &&& newest_first(self.reports@)
    }

    pub fn new() -> (r: ImporterService)
        ensures
            r.wf(),
            r.importers@.len() == 0,
            r.reports@.len() == 0,
    {
        ImporterService { importers: Vec::new(), reports: Vec::new() }
    }

    /// All importers.
    pub fn list(&self) -> (r: &Vec<Row>)
        ensures
            r@ == self.importers@,
    {
        &self.importers
    }

    /// The index of the importer of that name.
    fn position(&self, name: &str) -> (r: Option<usize>)
        ensures
            match r {
                Some(i) => i < self.importers@.len() && self.importers@[i as int].value.name@ == name@,
                None => !found(self.importers@, name@),
            },
    {
        let mut i: usize = 0;
        while i < self.importers.len()
            invariant
                i <= self.importers@.len(),
                forall|j: int| 0 <= j < i ==> (#[trigger] self.importers@[j]).value.name@ != name@,
            decreases self.importers@.len() - i,
        {
            if str_eq(self.importers[i].value.name.as_str(), name) {
                return Some(i);
            }
            i = i + 1;
        }
        None
    }

    /// The importer of that name, with its revision.
    pub fn read(&self, name: &str) -> (r: Option<&Row>)
        ensures
            match r {
                Some(row) => row.value.name@ == name@ && self.importers@.contains(*row),
                None => !found(self.importers@, name@),
            },
    {
        match self.position(name) {
            Some(i) => Some(&self.importers[i]),
            None => None,
        }
    }

    /// Adds an importer, waiting, never run, at the given revision.
    pub fn create(
        &mut self,
        name: String,
        configuration: ImporterConfiguration,
        now: i64,
        revision: String,
    ) -> (r: Result<(), ServiceError>)
        requires
            old(self).wf(),
        ensures
            final(self).wf(),
            found(old(self).importers@, name@) ==> match r {
                Err(ServiceError::AlreadyExists(n)) => n@ == name@,
                _ => false,
            },
            found(old(self).importers@, name@) ==> *final(self) == *old(self),
            !found(old(self).importers@, name@) ==> r is Ok,
            !found(old(self).importers@, name@) ==> {
                let row = final(self).importers@.last();
                &&& final(self).importers@ == old(self).importers@.push(row)
                &&& final(self).reports@ == old(self).reports@
                &&& row.value.name == name
                &&& row.revision == revision
                &&& row.value.data.configuration == configuration
                &&& row.value.data.state == State::Waiting
                &&& row.value.data.last_change == now
                &&& row.value.data.last_success is None
                &&& row.value.data.last_run is None
                &&& row.value.data.last_error is None
            },
    {
        if let Some(_) = self.position(name.as_str()) {
            return Err(ServiceError::AlreadyExists(name));
        }
        let row = Revisioned {
            value: Importer {
                name,
                data: ImporterData {
                    configuration,
                    state: State::Waiting,
                    last_change: now,
                    last_success: None,
                    last_run: None,
                    last_error: None,
                },
            },
            revision,
        };
        self.importers.push(row);
        Ok(())
    }

    /// Finds the importer to change: it must exist and be at the expected
    /// revision.
    fn check(&self, name: &str, expected_revision: Option<&str>) -> (r: Result<usize, ServiceError>)
        requires
            self.wf(),
        ensures
            match r {
                Ok(i) => i < self.importers@.len() && self.importers@[i as int].value.name@ == name@
                    && found(self.importers@, name@)
                    && revision_matches(self.importers@, name@, opt_str(expected_revision)),
                Err(ServiceError::NotFound(n)) => n@ == name@ && !found(self.importers@, name@),
                Err(ServiceError::MidAirCollision) => found(self.importers@, name@)
                    && !revision_matches(self.importers@, name@, opt_str(expected_revision)),
                Err(ServiceError::AlreadyExists(_)) => false,
            },
    {
        match self.position(name) {
            None => Err(ServiceError::NotFound(name.to_string())),
            Some(i) => {
                match expected_revision {
                    Some(e) => {
                        if str_eq(self.importers[i].revision.as_str(), e) {
                            Ok(i)
                        } else {
                            Err(ServiceError::MidAirCollision)
                        }
                    },
                    None => Ok(i),
                }
            },
        }
    }
}

/// Only the importer of that name may differ; its name stays.
pub open spec fn changed_only(old_rows: Seq<Row>, new_rows: Seq<Row>, name: Seq<char>) -> bool {
    &&& new_rows.len() == old_rows.len()
    &&& forall|j: int| 0 <= j < old_rows.len() ==> (#[trigger] old_rows[j]).value.name@ != name
        ==> new_rows[j] == old_rows[j]
    &&& forall|j: int| 0 <= j < old_rows.len() ==> (#[trigger] new_rows[j]).value.name == old_rows[j].value.name
}

/// Which page of a listing: skip `offset` items, then at most `limit`, or all
/// where `limit` is zero.
pub struct Paginated {
    pub offset: usize,
    pub limit: usize,
}

pub open spec fn page_end(total: int, p: Paginated) -> int {
    if p.limit == 0 || p.offset + p.limit > total {
        total
    } else {
        p.offset + p.limit
    }
}

/// The reports of one importer, in the order held.
pub open spec fn reports_for(reports: Seq<ImporterReport>, name: Seq<char>) -> Seq<ImporterReport>
    decreases reports.len(),
{
    if reports.len() == 0 {
        seq![]
    } else if reports.last().importer@ == name {
        reports_for(reports.drop_last(), name).push(reports.last())
    } else {
        reports_for(reports.drop_last(), name)
    }
}

/// The reports of every other importer, in the order held.
pub open spec fn reports_except(reports: Seq<ImporterReport>, name: Seq<char>) -> Seq<ImporterReport>
    decreases reports.len(),
{
    if reports.len() == 0 {
        seq![]
    } else if reports.last().importer@ != name {
        reports_except(reports.drop_last(), name).push(reports.last())
    } else {
        reports_except(reports.drop_last(), name)
    }
}

proof fn lemma_reports_except_sorted(reports: Seq<ImporterReport>, name: Seq<char>)
    requires
        newest_first(reports),
    ensures
        newest_first(reports_except(reports, name)),
        forall|i: int| 0 <= i < reports_except(reports, name).len() ==>
            exists|j: int| 0 <= j < reports.len() && reports[j] == #[trigger] reports_except(reports, name)[i],
    decreases reports.len(),
{
    if reports.len() > 0 {
        let p = reports.drop_last();
        assert(newest_first(p)) by {
            assert forall|i: int, j: int| 0 <= i < j < p.len() implies (#[trigger] p[i]).creation >= (#[trigger] p[j]).creation by {
                assert(p[i] == reports[i] && p[j] == reports[j]);
            }
        }
        lemma_reports_except_sorted(p, name);
        let e = reports_except(p, name);
        let r = reports_except(reports, name);
        assert forall|i: int| 0 <= i < r.len() implies exists|j: int| 0 <= j < reports.len() && reports[j] == #[trigger] r[i] by {
            if i < e.len() {
                assert(r[i] == e[i]);
                let j = choose|j: int| 0 <= j < p.len() && p[j] == e[i];
                assert(reports[j] == r[i]);
            } else {
                assert(reports[reports.len() - 1] == r[i]);
            }
        }
        assert forall|i: int, j: int| 0 <= i < j < r.len() implies (#[trigger] r[i]).creation >= (#[trigger] r[j]).creation by {
            if j < e.len() {
                assert(r[i] == e[i] && r[j] == e[j]);
            } else {
                assert(r[i] == e[i]);
                let m = choose|m: int| 0 <= m < p.len() && p[m] == e[i];
                assert(reports[m] == r[i]);
                assert(r[j] == reports[reports.len() - 1]);
            }
        }
    }
}

impl ImporterService {
    /// Takes the importer at index `i` out, to be put back changed.
    fn take_row(&mut self, i: usize) -> (r: Row)
        requires
            i < old(self).importers@.len(),
        ensures
            r == old(self).importers@[i as int],
            final(self).importers@ == old(self).importers@.remove(i as int),
            final(self).reports@ == old(self).reports@,
    {
        self.importers.remove(i)
    }

    fn put_row(&mut self, i: usize, row: Row)
        requires
            i <= old(self).importers@.len(),
        ensures
            final(self).importers@ == old(self).importers@.insert(i as int, row),
            final(self).reports@ == old(self).reports@,
    {
        self.importers.insert(i, row);
    }

    /// Replaces the configuration of an importer that is at the expected
    /// revision, and moves it to the given revision.
    pub fn update_configuration(
        &mut self,
        name: &str,
        expected_revision: Option<&str>,
        configuration: ImporterConfiguration,
        revision: String,
    ) -> (r: Result<(), ServiceError>)
        requires
            old(self).wf(),
        ensures
            final(self).wf(),
            !found(old(self).importers@, name@) ==> *final(self) == *old(self) && match r {
                Err(ServiceError::NotFound(n)) => n@ == name@,
                _ => false,
            },
            found(old(self).importers@, name@) && !revision_matches(old(self).importers@, name@, opt_str(expected_revision))
                ==> *final(self) == *old(self) && r is Err && r->Err_0 is MidAirCollision,
            found(old(self).importers@, name@) && revision_matches(old(self).importers@, name@, opt_str(expected_revision)) ==> {
                &&& r is Ok
                &&& final(self).reports@ == old(self).reports@
                &&& changed_only(old(self).importers@, final(self).importers@, name@)
                &&& forall|j: int| 0 <= j < old(self).importers@.len() && (#[trigger] old(self).importers@[j]).value.name@ == name@ ==> {
                    let o = old(self).importers@[j].value.data;
                    let n = final(self).importers@[j];
                    &&& n.revision == revision
                    &&& n.value.data.configuration == configuration
                    &&& n.value.data.state == o.state
                    &&& n.value.data.last_change == o.last_change
                    &&& n.value.data.last_success == o.last_success
                    &&& n.value.data.last_run == o.last_run
                    &&& n.value.data.last_error == o.last_error
                }
            },
    {
        let i = match self.check(name, expected_revision) {
            Ok(i) => i,
            Err(e) => {
                return Err(e);
            },
        };
        let ghost before = self.importers@;
        let row = self.take_row(i);
        let Revisioned { value: Importer { name: row_name, data }, revision: _ } = row;
        let ImporterData { configuration: _, state, last_change, last_success, last_run, last_error } = data;
        let new_row = Revisioned {
            value: Importer {
                name: row_name,
                data: ImporterData { configuration, state, last_change, last_success, last_run, last_error },
            },
            revision,
        };
        self.put_row(i, new_row);
        proof {
            assert(self.importers@ =~= before.update(i as int, new_row));
        }
        Ok(())
    }

    /// Marks an importer at the expected revision as running since `now`,
    /// and moves it to the given revision.
    pub fn update_start(
        &mut self,
        name: &str,
        expected_revision: Option<&str>,
        now: i64,
        revision: String,
    ) -> (r: Result<(), ServiceError>)
        requires
            old(self).wf(),
        ensures
            final(self).wf(),
            !found(old(self).importers@, name@) ==> *final(self) == *old(self) && match r {
                Err(ServiceError::NotFound(n)) => n@ == name@,
                _ => false,
            },
            found(old(self).importers@, name@) && !revision_matches(old(self).importers@, name@, opt_str(expected_revision))
                ==> *final(self) == *old(self) && r is Err && r->Err_0 is MidAirCollision,
            found(old(self).importers@, name@) && revision_matches(old(self).importers@, name@, opt_str(expected_revision)) ==> {
                &&& r is Ok
                &&& final(self).reports@ == old(self).reports@
                &&& changed_only(old(self).importers@, final(self).importers@, name@)
                &&& forall|j: int| 0 <= j < old(self).importers@.len() && (#[trigger] old(self).importers@[j]).value.name@ == name@ ==> {
                    let o = old(self).importers@[j].value.data;
                    let n = final(self).importers@[j];
                    &&& n.revision == revision
                    &&& n.value.data.configuration == o.configuration
                    &&& n.value.data.state == State::Running
                    &&& n.value.data.last_change == now
                    &&& n.value.data.last_success == o.last_success
                    &&& n.value.data.last_run == o.last_run
                    &&& n.value.data.last_error == o.last_error
                }
            },
    {
        let i = match self.check(name, expected_revision) {
            Ok(i) => i,
            Err(e) => {
                return Err(e);
            },
        };
        let ghost before = self.importers@;
        let row = self.take_row(i);
        let Revisioned { value: Importer { name: row_name, data }, revision: _ } = row;
        let ImporterData { configuration, state: _, last_change: _, last_success, last_run, last_error } = data;
        let new_row = Revisioned {
            value: Importer {
                name: row_name,
                data: ImporterData { configuration, state: State::Running, last_change: now, last_success, last_run, last_error },
            },
            revision,
        };
        self.put_row(i, new_row);
        proof {
            assert(self.importers@ =~= before.update(i as int, new_row));
        }
        Ok(())
    }
}

fn clone_opt(o: &Option<String>) -> (r: Option<String>)
    ensures
        r == *o,
{
    match o {
        Some(s) => Some(s.clone()),
        None => None,
    }
}

impl ImporterService {
    /// Puts a report in its place, newest first; after every report at
    /// least as new.
    fn insert_report(&mut self, report: ImporterReport)
        requires
            newest_first(old(self).reports@),
        ensures
            newest_first(final(self).reports@),
            exists|k: int| 0 <= k <= old(self).reports@.len() && final(self).reports@ == old(self).reports@.insert(k, report),
            final(self).importers@ == old(self).importers@,
    {
        let mut k: usize = 0;
        while k < self.reports.len()
            invariant
                k <= self.reports@.len(),
                forall|j: int| 0 <= j < k ==> (#[trigger] self.reports@[j]).creation >= report.creation,
            ensures
                k <= self.reports@.len(),
                forall|j: int| 0 <= j < k ==> (#[trigger] self.reports@[j]).creation >= report.creation,
                k < self.reports@.len() ==> self.reports@[k as int].creation < report.creation,
            decreases self.reports@.len() - k,
        {
            if self.reports[k].creation < report.creation {
                break;
            }
            k = k + 1;
        }
        let ghost before = self.reports@;
        self.reports.insert(k, report);
        proof {
            let r = self.reports@;
            assert forall|i: int, j: int| 0 <= i < j < r.len() implies (#[trigger] r[i]).creation >= (#[trigger] r[j]).creation by {
                if i < k && j < k {
                    assert(r[i] == before[i] && r[j] == before[j]);
                } else if i < k && j == k {
                    assert(r[i] == before[i]);
                } else if i < k {
                    assert(r[i] == before[i] && r[j] == before[j - 1]);
                } else if i == k {
                    assert(r[j] == before[j - 1]);
                    assert(before[k as int].creation >= before[j - 1].creation);
                } else {
                    assert(r[i] == before[i - 1] && r[j] == before[j - 1]);
                }
            }
        }
    }

    /// Marks the end of a run of an importer at the expected revision: it
    /// waits again, records the run and its error, and, where the run
    /// succeeded, the success at `now`. Where a report is given, it is kept
    /// under `report_id`, created `now`.
    pub fn update_finish(
        &mut self,
        name: &str,
        expected_revision: Option<&str>,
        last_run: i64,
        last_error: Option<String>,
        report: Option<String>,
        now: i64,
        revision: String,
        report_id: String,
    ) -> (r: Result<(), ServiceError>)
        requires
            old(self).wf(),
        ensures
            final(self).wf(),
            !found(old(self).importers@, name@) ==> *final(self) == *old(self) && match r {
                Err(ServiceError::NotFound(n)) => n@ == name@,
                _ => false,
            },
            found(old(self).importers@, name@) && !revision_matches(old(self).importers@, name@, opt_str(expected_revision))
                ==> *final(self) == *old(self) && r is Err && r->Err_0 is MidAirCollision,
            found(old(self).importers@, name@) && revision_matches(old(self).importers@, name@, opt_str(expected_revision)) ==> {
                &&& r is Ok
                &&& changed_only(old(self).importers@, final(self).importers@, name@)
                &&& forall|j: int| 0 <= j < old(self).importers@.len() && (#[trigger] old(self).importers@[j]).value.name@ == name@ ==> {
                    let o = old(self).importers@[j].value.data;
                    let n = final(self).importers@[j];
                    &&& n.revision == revision
                    &&& n.value.data.configuration == o.configuration
                    &&& n.value.data.state == State::Waiting
                    &&& n.value.data.last_change == now
                    &&& n.value.data.last_success == if last_error is None { Some(now) } else { o.last_success }
                    &&& n.value.data.last_run == Some(last_run)
                    &&& n.value.data.last_error == last_error
                }
                &&& report is None ==> final(self).reports@ == old(self).reports@
                &&& report is Some ==> exists|k: int| 0 <= k <= old(self).reports@.len()
                    && final(self).reports@ == old(self).reports@.insert(k, final(self).reports@[k])
                    && final(self).reports@[k].id == report_id
                    && final(self).reports@[k].importer@ == name@
                    && final(self).reports@[k].creation == now
                    && final(self).reports@[k].error == last_error
                    && final(self).reports@[k].report == report->Some_0
            },
    {
        let i = match self.check(name, expected_revision) {
            Ok(i) => i,
            Err(e) => {
                return Err(e);
            },
        };
        let ghost before = self.importers@;
        let row = self.take_row(i);
        let Revisioned { value: Importer { name: row_name, data }, revision: _ } = row;
        let ImporterData { configuration, state: _, last_change: _, last_success, last_run: _, last_error: _ } = data;
        let success = if last_error.is_none() { Some(now) } else { last_success };
        let new_row = Revisioned {
            value: Importer {
                name: row_name,
                data: ImporterData {
                    configuration,
                    state: State::Waiting,
                    last_change: now,
                    last_success: success,
                    last_run: Some(last_run),
                    last_error: clone_opt(&last_error),
                },
            },
            revision,
        };
        self.put_row(i, new_row);
        proof {
            assert(self.importers@ =~= before.update(i as int, new_row));
        }
        if let Some(report) = report {
            let entry = ImporterReport {
                id: report_id,
                importer: name.to_string(),
                creation: now,
                error: last_error,
                report,
            };
            let ghost reports_before = self.reports@;
            self.insert_report(entry);
            proof {
                let k = choose|k: int| 0 <= k <= reports_before.len() && self.reports@ == reports_before.insert(k, entry);
                assert(self.reports@[k] == entry);
            }
        }
        Ok(())
    }

    /// Removes an importer at the expected revision, and its reports. Says
    /// whether it did.
    pub fn delete(&mut self, name: &str, expected_revision: Option<&str>) -> (r: bool)
        requires
            old(self).wf(),
        ensures
            final(self).wf(),
            r == (found(old(self).importers@, name@) && revision_matches(old(self).importers@, name@, opt_str(expected_revision))),
            !r ==> *final(self) == *old(self),
            r ==> exists|i: int| 0 <= i < old(self).importers@.len()
                && (#[trigger] old(self).importers@[i]).value.name@ == name@
                && final(self).importers@ == old(self).importers@.remove(i),
            r ==> final(self).reports@ == reports_except(old(self).reports@, name@),
    {
        let i = match self.check(name, expected_revision) {
            Ok(i) => i,
            Err(_) => {
                return false;
            },
        };
        let ghost rows = self.importers@;
        let _ = self.take_row(i);
        proof {
            assert forall|a: int, b: int| 0 <= a < b < self.importers@.len() implies
                (#[trigger] self.importers@[a]).value.name@ != (#[trigger] self.importers@[b]).value.name@ by {
                let a0 = if a < i { a } else { a + 1 };
                let b0 = if b < i { b } else { b + 1 };
                assert(self.importers@[a] == rows[a0] && self.importers@[b] == rows[b0]);
            }
        }
        let ghost orig = self.reports@;
        let mut kept: Vec<ImporterReport> = Vec::new();
        let mut rest: Vec<ImporterReport> = Vec::new();
        std::mem::swap(&mut rest, &mut self.reports);
        let total = rest.len();
        proof {
            assert(rest@ == orig);
        }
        let mut k: usize = 0;
        while rest.len() > 0
            invariant
                kept@ == reports_except(orig.subrange(0, k as int), name@),
                rest@ == orig.subrange(k as int, orig.len() as int),
                k <= orig.len(),
                orig.len() == total,
                k + rest@.len() == total,
            decreases rest@.len(),
        {
            let report = rest.remove(0);
            proof {
                let pre = orig.subrange(0, k + 1);
                assert(pre.drop_last() =~= orig.subrange(0, k as int));
                assert(pre.last() == report);
                assert(rest@ =~= orig.subrange(k + 1, orig.len() as int));
            }
            if !str_eq(report.importer.as_str(), name) {
                kept.push(report);
            }
            k = k + 1;
        }
        proof {
            assert(k == orig.len());
            assert(orig.subrange(0, k as int) =~= orig);
            lemma_reports_except_sorted(orig, name@);
        }
        self.reports = kept;
        true
    }

    /// One page of the reports of an importer, newest first, and how many it
    /// has in all.
    pub fn get_reports(&self, name: &str, paginated: Paginated) -> (r: PaginatedResults<&ImporterReport>)
        ensures
            r.total == reports_for(self.reports@, name@).len(),
            paginated.offset <= r.total ==> r.items@.map_values(|x: &ImporterReport| *x) == reports_for(self.reports@, name@).subrange(
                paginated.offset as int,
                page_end(r.total as int, paginated),
            ),
            paginated.offset > r.total ==> r.items@.len() == 0,
    {
        let mut all: Vec<&ImporterReport> = Vec::new();
        let mut i: usize = 0;
        while i < self.reports.len()
            invariant
                i <= self.reports@.len(),
                all@.map_values(|x: &ImporterReport| *x) == reports_for(self.reports@.subrange(0, i as int), name@),
            decreases self.reports@.len() - i,
        {
            proof {
                let pre = self.reports@.subrange(0, i + 1);
                assert(pre.drop_last() =~= self.reports@.subrange(0, i as int));
                assert(pre.last() == self.reports@[i as int]);
            }
            let ghost before = all@;
            if str_eq(self.reports[i].importer.as_str(), name) {
                all.push(&self.reports[i]);
                proof {
                    assert(all@.map_values(|x: &ImporterReport| *x)
                        =~= before.map_values(|x: &ImporterReport| *x).push(self.reports@[i as int]));
                }
            }
            i = i + 1;
        }
        proof {
            assert(self.reports@.subrange(0, i as int) =~= self.reports@);
        }
        let total = all.len();
        let mut items: Vec<&ImporterReport> = Vec::new();
        if paginated.offset <= total {
            let end: usize = if paginated.limit == 0 || paginated.limit > total - paginated.offset {
                total
            } else {
                paginated.offset + paginated.limit
            };
            let mut j: usize = paginated.offset;
            while j < end
                invariant
                    paginated.offset <= j <= end,
                    end <= all@.len(),
                    items@ == all@.subrange(paginated.offset as int, j as int),
                    all@.len() == total,
                decreases end - j,
            {
                items.push(all[j]);
                proof {
                    assert(items@ =~= all@.subrange(paginated.offset as int, j + 1));
                }
                j = j + 1;
            }
        }
        proof {
            if paginated.offset <= total {
                assert(items@.map_values(|x: &ImporterReport| *x) =~= all@.map_values(|x: &ImporterReport| *x).subrange(
                    paginated.offset as int, page_end(total as int, paginated)));
            }
        }
        PaginatedResults { items, total }
    }
}

/// A change made at an expected revision moves the importer to a fresh
/// revision, so that of two changes expecting the same revision the first
/// goes through and the second collides.
pub proof fn stale_revision_collides(before: Seq<Row>, after: Seq<Row>, name: Seq<char>, expected: Seq<char>)
    requires
        found(before, name),
        revision_matches(before, name, Some(expected)),
        changed_only(before, after, name),
        forall|j: int| 0 <= j < before.len() && (#[trigger] before[j]).value.name@ == name ==> after[j].revision@ != expected,
    ensures
        found(after, name),
        !revision_matches(after, name, Some(expected)),
{
    let i = choose|i: int| 0 <= i < before.len() && (#[trigger] before[i]).value.name@ == name;
    assert(after[i].value.name == before[i].value.name);
    assert(after[i].value.name@ == name);
}

} // verus!
