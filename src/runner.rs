//! The decisions of the importer runner: which importers are due, and what
//! a finished run records.

use vstd::prelude::*;
use crate::model::{Importer, State};
use crate::service::{ImporterService, Row};

verus! {

/// Whether an importer should run at `now`: it is enabled, waiting, and
/// either never ran or ran at least a period ago.
pub open spec fn spec_is_due(importer: Importer, now: i64) -> bool {
    let common = importer.data.configuration.spec_common();
    &&& !common.disabled
    &&& importer.data.state == State::Waiting
    &&& match importer.data.last_run {
        None => true,
        Some(last) => last as int + common.period as int <= now as int,
    }
}

pub fn is_due(importer: &Importer, now: i64) -> (r: bool)
    ensures
        r == spec_is_due(*importer, now),
{
    let common = importer.data.configuration.common();
    if common.disabled || importer.data.state != State::Waiting {
        return false;
    }
    match importer.data.last_run {
        None => true,
        Some(last) => (last as i128) + (common.period as i128) <= (now as i128),
    }
}

/// The indices of the importers that are due at `now`, in order.
pub open spec fn spec_due(rows: Seq<Row>, now: i64) -> Seq<usize>
    decreases rows.len(),
{
    if rows.len() == 0 {
        seq![]
    } else if spec_is_due(rows.last().value, now) {
        spec_due(rows.drop_last(), now).push((rows.len() - 1) as usize)
    } else {
        spec_due(rows.drop_last(), now)
    }
}

/// The importers to start at `now`: the positions of those that are due.
pub fn due_importers(service: &ImporterService, now: i64) -> (r: Vec<usize>)
    ensures
        r@ == spec_due(service.importers@, now),
{
    let mut out: Vec<usize> = Vec::new();
    let mut i: usize = 0;
    while i < service.importers.len()
        invariant
            i <= service.importers@.len(),
            out@ == spec_due(service.importers@.subrange(0, i as int), now),
        decreases service.importers@.len() - i,
    {
        proof {
            let pre = service.importers@.subrange(0, i + 1);
            assert(pre.drop_last() =~= service.importers@.subrange(0, i as int));
            assert(pre.last() == service.importers@[i as int]);
        }
        if is_due(&service.importers[i].value, now) {
            out.push(i);
        }
        i = i + 1;
    }
    proof {
        assert(service.importers@.subrange(0, i as int) =~= service.importers@);
    }
    out
}

/// A disabled importer is never due, so it never leaves the waiting state.
pub proof fn disabled_never_due(importer: Importer, now: i64)
    requires
        importer.data.configuration.spec_common().disabled,
    ensures
        !spec_is_due(importer, now),
{
}

/// How a run ended.
pub enum RunOutcome {
    Succeeded,
    Failed(String),
    /// The run panicked with the message.
    Panicked(String),
    Cancelled,
}

pub open spec fn spec_last_error(outcome: RunOutcome) -> Option<Seq<char>> {
    match outcome {
        RunOutcome::Succeeded => None,
        RunOutcome::Failed(e) => Some(e@),
        RunOutcome::Panicked(m) => Some("panic: "@ + m@),
        RunOutcome::Cancelled => Some("cancelled"@),
    }
}

/// The error that a finished run records: none for a success.
pub fn last_error(outcome: RunOutcome) -> (r: Option<String>)
    ensures
        match r {
            Some(s) => spec_last_error(outcome) == Some(s@),
            None => spec_last_error(outcome) is None,
        },
{
    match outcome {
        RunOutcome::Succeeded => None,
        RunOutcome::Failed(e) => Some(e),
        RunOutcome::Panicked(m) => {
            let mut s = String::new();
            s.append("panic: ");
            s.append(m.as_str());
            Some(s)
        },
        RunOutcome::Cancelled => Some("cancelled".to_string()),
    }
}

} // verus!
