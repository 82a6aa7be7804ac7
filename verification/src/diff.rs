//! The baseline differ: how the outcome of a resolution compares with the
//! version recorded for the package, and how a baseline takes an outcome in.

use vstd::prelude::*;
use crate::baseline::Baseline;
use crate::error::Error;
use crate::model::{OutcomeModel, ResolutionOutcome};

verus! {

/// How an outcome compares with the baseline.
#[derive(Clone, Debug)]
pub enum DiffResult {
    /// The package has no recorded version.
    New { name: String, version: String },
    /// The version found differs from the recorded one.
    Changed { name: String, previous: String, current: String },
    /// The version found is the recorded one.
    Unchanged { name: String, version: String },
    /// The resolution failed.
    Failure { name: String, reason: Error },
}

/// What a `DiffResult` holds, as plain values.
pub ghost enum DiffModel {
    New { name: Seq<char>, version: Seq<char> },
    Changed { name: Seq<char>, previous: Seq<char>, current: Seq<char> },
    Unchanged { name: Seq<char>, version: Seq<char> },
    Failure { name: Seq<char>, reason: Error },
}

impl View for DiffResult {
    type V = DiffModel;

    open spec fn view(&self) -> DiffModel {
        match self {
            DiffResult::New { name, version } => DiffModel::New { name: name@, version: version@ },
            DiffResult::Changed { name, previous, current } => DiffModel::Changed {
                name: name@,
                previous: previous@,
                current: current@,
            },
            DiffResult::Unchanged { name, version } => DiffModel::Unchanged {
                name: name@,
                version: version@,
            },
            DiffResult::Failure { name, reason } => DiffModel::Failure {
                name: name@,
                reason: *reason,
            },
        }
    }
}

/// How `outcome` compares with `baseline`.  A failure is reported as it is.
/// A version is new if the baseline has none for the name, unchanged if it
/// has this one, and changed otherwise.
pub open spec fn compared(outcome: OutcomeModel, baseline: Map<Seq<char>, Seq<char>>) -> DiffModel {
    match outcome {
        OutcomeModel::Failed { name, reason } => DiffModel::Failure { name, reason },
        OutcomeModel::Resolved { name, version } => if !baseline.contains_key(name) {
            DiffModel::New { name, version }
        } else if baseline[name] != version {
            DiffModel::Changed { name, previous: baseline[name], current: version }
        } else {
            DiffModel::Unchanged { name, version }
        },
    }
}

/// The baseline once `outcome` is taken in: a version is recorded for its
/// name, a failure leaves the baseline as it is.
pub open spec fn recorded(baseline: Map<Seq<char>, Seq<char>>, outcome: OutcomeModel) -> Map<
    Seq<char>,
    Seq<char>,
> {
    match outcome {
        OutcomeModel::Resolved { name, version } => baseline.insert(name, version),
        OutcomeModel::Failed { .. } => baseline,
    }
}

/// How `outcome` compares with `baseline`.
pub fn diff(outcome: &ResolutionOutcome, baseline: &Baseline) -> (r: DiffResult)
    requires
        baseline.wf(),
    ensures
        r@ == compared(outcome@, baseline@),
{
    match outcome {
        ResolutionOutcome::Failed { name, reason } => DiffResult::Failure {
            name: name.clone(),
            reason: *reason,
        },
        ResolutionOutcome::Resolved(found) => match baseline.get(found.name.as_str()) {
            None => DiffResult::New { name: found.name.clone(), version: found.version.clone() },
            Some(previous) => {
                if *previous != found.version {
                    DiffResult::Changed {
                        name: found.name.clone(),
                        previous: previous.clone(),
                        current: found.version.clone(),
                    }
                } else {
                    DiffResult::Unchanged {
                        name: found.name.clone(),
                        version: found.version.clone(),
                    }
                }
            },
        },
    }
}

/// Takes `outcome` into `baseline`: a version found is recorded for its
/// package, in place of the one recorded before; a failure changes nothing.
pub fn record(baseline: &mut Baseline, outcome: &ResolutionOutcome)
    requires
        old(baseline).wf(),
    ensures
        final(baseline).wf(),
        final(baseline)@ == recorded(old(baseline)@, outcome@),
{
    match outcome {
        ResolutionOutcome::Resolved(found) => {
            baseline.insert(found.name.as_str(), found.version.as_str());
        },
        ResolutionOutcome::Failed { .. } => {},
    }
}

/// Once a version is recorded, the outcome that brought it compares as
/// unchanged; and a failure compares as a failure against every baseline.
pub proof fn law_recorded_outcome_is_unchanged(
    baseline: Map<Seq<char>, Seq<char>>,
    outcome: OutcomeModel,
)
    ensures
        outcome matches OutcomeModel::Resolved { name, version } ==> compared(
            outcome,
            recorded(baseline, outcome),
        ) == (DiffModel::Unchanged { name, version }),
        outcome matches OutcomeModel::Failed { name, reason } ==> recorded(baseline, outcome)
            == baseline && compared(outcome, baseline) == (DiffModel::Failure { name, reason }),
{
}

/// Taking an outcome in touches no other package: what the baseline holds
/// for any other name stays as it was.
pub proof fn law_record_keeps_others(
    baseline: Map<Seq<char>, Seq<char>>,
    outcome: OutcomeModel,
    other: Seq<char>,
)
    requires
        other != outcome.name(),
    ensures
        recorded(baseline, outcome).contains_key(other) == baseline.contains_key(other),
        baseline.contains_key(other) ==> recorded(baseline, outcome)[other] == baseline[other],
{
}

} // verus!
