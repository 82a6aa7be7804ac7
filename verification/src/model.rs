//! The values that flow through a resolution: the package to resolve, the
//! rules that find a query for its page, and the outcome.

use vstd::prelude::*;
use crate::error::Error;

verus! {

/// A tracked package: its name, the page that lists its releases, and
/// optionally the query that finds the version on that page.
#[derive(Clone, Debug)]
pub struct PackageDescriptor {
    pub name: String,
    pub upstream: String,
    pub selector: Option<String>,
}

/// What a `PackageDescriptor` holds, as plain values.
pub ghost struct PackageModel {
    pub name: Seq<char>,
    pub upstream: Seq<char>,
    pub selector: Option<Seq<char>>,
}

impl View for PackageDescriptor {
    type V = PackageModel;

    open spec fn view(&self) -> PackageModel {
        PackageModel {
            name: self.name@,
            upstream: self.upstream@,
            selector: match self.selector {
                Some(q) => Some(q@),
                None => None,
            },
        }
    }
}

/// One row of the selector table: upstream URLs that `pattern` matches are
/// queried with `query`.
#[derive(Clone, Debug)]
pub struct SelectorRule {
    pub pattern: String,
    pub query: String,
}

/// What a `SelectorRule` holds, as plain values.
pub ghost struct RuleModel {
    pub pattern: Seq<char>,
    pub query: Seq<char>,
}

impl View for SelectorRule {
    type V = RuleModel;

    open spec fn view(&self) -> RuleModel {
        RuleModel { pattern: self.pattern@, query: self.query@ }
    }
}

/// The views of the rules of a table, in the table's order.
pub open spec fn rules_view(rules: Seq<SelectorRule>) -> Seq<RuleModel> {
    Seq::new(rules.len(), |i: int| rules[i]@)
}

/// The canonical version found for a package.
#[derive(Clone, Debug)]
pub struct ResolvedVersion {
    pub name: String,
    pub version: String,
}

/// How the resolution of one package ended.
#[derive(Clone, Debug)]
pub enum ResolutionOutcome {
    Resolved(ResolvedVersion),
    Failed { name: String, reason: Error },
}

/// What a `ResolutionOutcome` holds, as plain values.
pub ghost enum OutcomeModel {
    Resolved { name: Seq<char>, version: Seq<char> },
    Failed { name: Seq<char>, reason: Error },
}

impl OutcomeModel {
    /// The name of the package that this outcome is about.
    pub open spec fn name(self) -> Seq<char> {
        match self {
            OutcomeModel::Resolved { name, .. } => name,
            OutcomeModel::Failed { name, .. } => name,
        }
    }
}

impl View for ResolutionOutcome {
    type V = OutcomeModel;

    open spec fn view(&self) -> OutcomeModel {
        match self {
            ResolutionOutcome::Resolved(found) => OutcomeModel::Resolved {
                name: found.name@,
                version: found.version@,
            },
            ResolutionOutcome::Failed { name, reason } => OutcomeModel::Failed {
                name: name@,
                reason: *reason,
            },
        }
    }
}

impl ResolutionOutcome {
    /// The name of the package that this outcome is about.
    pub fn name(&self) -> (r: &String)
        ensures
            r@ == self@.name(),
    {
        match self {
            ResolutionOutcome::Resolved(found) => &found.name,
            ResolutionOutcome::Failed { name, .. } => name,
        }
    }
}

} // verus!
