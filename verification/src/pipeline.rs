//! The resolution orchestrator: the decisions of one package's pipeline.
//!
//! The pipeline is a state machine.  It asks its driver to fetch the page,
//! is told how the fetch went, and then either ends with an outcome or asks
//! for the page again after a delay.  The driver does the fetching and the
//! waiting; every decision is taken here.

use vstd::prelude::*;
use crate::error::{result_view, Error};
use crate::extract::{extract, extracted};
use crate::model::{
    rules_view, OutcomeModel, PackageDescriptor, PackageModel, ResolutionOutcome,
    ResolvedVersion, RuleModel, SelectorRule,
};
use crate::normalize::{normalize, normalized};
use crate::selector::{optional_text, resolution_allowed, resolve};

verus! {

/// The number of times a page is fetched at most.
pub const MAX_ATTEMPTS: u8 = 7;

/// The time between a failed attempt and the next, in milliseconds.
pub const RETRY_DELAY_MS: u64 = 1337;

/// How a fetch went: the page's text, or a failure of the transport.
#[derive(Clone, Debug)]
pub enum Fetched {
    Page(String),
    Failed,
}

/// The page that a fetch brought, if it brought one.
pub open spec fn page_of(fetched: Fetched) -> Option<Seq<char>> {
    match fetched {
        Fetched::Page(html) => Some(html@),
        Fetched::Failed => None,
    }
}

/// What the pipeline does next: fetch the page at `url`, as attempt number
/// `attempt` and after waiting `delay_ms` milliseconds, or end.
#[derive(Clone, Debug)]
pub enum Step {
    Fetch { url: String, attempt: u8, delay_ms: u64 },
    Done(ResolutionOutcome),
}

/// What a `Step` holds, as plain values.
pub ghost enum StepModel {
    Fetch { url: Seq<char>, attempt: u8, delay_ms: u64 },
    Done(OutcomeModel),
}

impl View for Step {
    type V = StepModel;

    open spec fn view(&self) -> StepModel {
        match self {
            Step::Fetch { url, attempt, delay_ms } => StepModel::Fetch {
                url: url@,
                attempt: *attempt,
                delay_ms: *delay_ms,
            },
            Step::Done(outcome) => StepModel::Done(outcome@),
        }
    }
}

/// The text of the version element on a fetched page, given the query that
/// was resolved for it: the failure to resolve one, else what extraction
/// yields.
pub open spec fn element_text_with(html: Seq<char>, query: Result<Seq<char>, Error>) -> Result<
    Seq<char>,
    Error,
> {
    match query {
        Err(e) => Err(e),
        Ok(q) => extracted(html, q),
    }
}

/// Whether `r` is a result that looking for the version element on a
/// fetched page may give: what it yields with a query that resolving may
/// give.
pub open spec fn element_text_allowed(
    pkg: PackageModel,
    rules: Seq<RuleModel>,
    html: Seq<char>,
    r: Result<Seq<char>, Error>,
) -> bool {
    exists|query: Result<Seq<char>, Error>| #[trigger]
        resolution_allowed(pkg.upstream, pkg.selector, rules, query) && r == element_text_with(
            html,
            query,
        )
}

/// What one attempt yields on a fetched page, given the query that was
/// resolved for it: the failure to resolve one, else what extraction fails
/// with, else the normalized text of the element.
pub open spec fn attempt_with(
    pkg: PackageModel,
    html: Seq<char>,
    query: Result<Seq<char>, Error>,
) -> Result<Seq<char>, Error> {
    match element_text_with(html, query) {
        Err(e) => Err(e),
        Ok(text) => normalized(text, pkg.name),
    }
}

/// Whether `r` is a result that one attempt on a fetched page may give: what
/// the attempt yields with a query that resolving may give.
pub open spec fn attempt_allowed(
    pkg: PackageModel,
    rules: Seq<RuleModel>,
    html: Seq<char>,
    r: Result<Seq<char>, Error>,
) -> bool {
    exists|query: Result<Seq<char>, Error>| #[trigger]
        resolution_allowed(pkg.upstream, pkg.selector, rules, query) && r == attempt_with(
            pkg,
            html,
            query,
        )
}

/// The first step of a pipeline: a package without upstream fails at once,
/// any other has its page fetched without delay.
pub open spec fn started(pkg: PackageModel) -> StepModel {
    if pkg.upstream.len() == 0 {
        StepModel::Done(OutcomeModel::Failed { name: pkg.name, reason: Error::EmptyUpstream })
    } else {
        StepModel::Fetch { url: pkg.upstream, attempt: 1, delay_ms: 0 }
    }
}

/// The step after attempt number `attempt` gave `result`.  A version ends
/// the pipeline, and so does a failure that no retry would mend.  Any other
/// failure leads to the next attempt after the delay, or, when this was the
/// last attempt, to `GenericFailure`.
pub open spec fn decided(
    pkg: PackageModel,
    attempt: u8,
    result: Result<Seq<char>, Error>,
) -> StepModel {
    match result {
        Ok(version) => StepModel::Done(OutcomeModel::Resolved { name: pkg.name, version }),
        Err(e) => if !e.retryable() {
            StepModel::Done(OutcomeModel::Failed { name: pkg.name, reason: e })
        } else if attempt < MAX_ATTEMPTS {
            StepModel::Fetch {
                url: pkg.upstream,
                attempt: (attempt + 1) as u8,
                delay_ms: RETRY_DELAY_MS,
            }
        } else {
            StepModel::Done(
                OutcomeModel::Failed { name: pkg.name, reason: Error::GenericFailure },
            )
        },
    }
}

/// Whether `r` is a result that the attempt after a fetch may give: after
/// a failed fetch `TransportFailure`, after a page a result that the
/// attempt on that page may give.
pub open spec fn attempt_on_allowed(
    pkg: PackageModel,
    rules: Seq<RuleModel>,
    page: Option<Seq<char>>,
    r: Result<Seq<char>, Error>,
) -> bool {
    match page {
        None => r == Err::<Seq<char>, Error>(Error::TransportFailure),
        Some(html) => attempt_allowed(pkg, rules, html, r),
    }
}

/// What the driver is handed after a fetch: the step to take next, and the
/// failure of the attempt just made, if it failed, for the driver to report.
#[derive(Clone, Debug)]
pub struct Advance {
    pub step: Step,
    pub failure: Option<Error>,
}

/// What an `Advance` holds, as plain values.
pub ghost struct AdvanceModel {
    pub step: StepModel,
    pub failure: Option<Error>,
}

impl View for Advance {
    type V = AdvanceModel;

    open spec fn view(&self) -> AdvanceModel {
        AdvanceModel { step: self.step@, failure: self.failure }
    }
}

/// The failure of an attempt, if its result is one.
pub open spec fn failure_of(result: Result<Seq<char>, Error>) -> Option<Error> {
    match result {
        Ok(_) => None,
        Err(e) => Some(e),
    }
}

/// What follows attempt number `attempt` when it gave `result`: the step
/// that is decided, and the attempt's failure.
pub open spec fn advanced(
    pkg: PackageModel,
    attempt: u8,
    result: Result<Seq<char>, Error>,
) -> AdvanceModel {
    AdvanceModel { step: decided(pkg, attempt, result), failure: failure_of(result) }
}

/// Whether `next` may follow attempt number `attempt`, given what the fetch
/// brought: what follows a result that the attempt after that fetch may
/// give.
pub open spec fn advance_allowed(
    pkg: PackageModel,
    rules: Seq<RuleModel>,
    attempt: u8,
    page: Option<Seq<char>>,
    next: AdvanceModel,
) -> bool {
    exists|r: Result<Seq<char>, Error>| #[trigger]
        attempt_on_allowed(pkg, rules, page, r) && next == advanced(pkg, attempt, r)
}

/// The explicit query of a package, if it has one.
fn explicit_query(pkg: &PackageDescriptor) -> (r: Option<&str>)
    ensures
        optional_text(r) == pkg@.selector,
{
    match &pkg.selector {
        Some(q) => Some(q.as_str()),
        None => None,
    }
}

/// The text of the version element on a fetched page, with the query
/// already resolved.
pub fn element_text_with_query(html: &str, query: Result<String, Error>) -> (r: Result<
    String,
    Error,
>)
    ensures
        result_view(r) == element_text_with(html@, result_view(query)),
{
    match query {
        Err(e) => Err(e),
        Ok(q) => extract(html, q.as_str()),
    }
}

/// The text of the version element on a fetched page, not normalized:
/// resolve the query and extract the element's text.  This is the raw text
/// that an attempt goes on to normalize.
pub fn element_text(pkg: &PackageDescriptor, rules: &Vec<SelectorRule>, html: &str) -> (r: Result<
    String,
    Error,
>)
    ensures
        element_text_allowed(pkg@, rules_view(rules@), html@, result_view(r)),
        r matches Err(e) ==> e == Error::NoSelectorFound || e == Error::InvalidQuery || e
            == Error::NoMatch,
{
    let query = resolve(pkg.upstream.as_str(), explicit_query(pkg), rules);
    let ghost resolved = result_view(query);
    let r = element_text_with_query(html, query);
    assert(resolution_allowed(pkg@.upstream, pkg@.selector, rules_view(rules@), resolved));
    r
}

/// One attempt on a fetched page, with the query already resolved: extract
/// the element's text and normalize it.
pub fn attempt_with_query(pkg: &PackageDescriptor, html: &str, query: Result<String, Error>) -> (r:
    Result<String, Error>)
    ensures
        result_view(r) == attempt_with(pkg@, html@, result_view(query)),
{
    match element_text_with_query(html, query) {
        Err(e) => Err(e),
        Ok(text) => normalize(text.as_str(), pkg.name.as_str()),
    }
}

/// One attempt on a fetched page: resolve the query, extract the element's
/// text, normalize it.
pub fn attempt(pkg: &PackageDescriptor, rules: &Vec<SelectorRule>, html: &str) -> (r: Result<
    String,
    Error,
>)
    ensures
        attempt_allowed(pkg@, rules_view(rules@), html@, result_view(r)),
        r matches Err(e) ==> e == Error::NoSelectorFound || e == Error::InvalidQuery || e
            == Error::NoMatch || e == Error::VersionNotFound,
{
    let query = resolve(pkg.upstream.as_str(), explicit_query(pkg), rules);
    let ghost resolved = result_view(query);
    let r = attempt_with_query(pkg, html, query);
    assert(resolution_allowed(pkg@.upstream, pkg@.selector, rules_view(rules@), resolved));
    r
}

/// The first step of the pipeline for `pkg`.
pub fn start(pkg: &PackageDescriptor) -> (step: Step)
    ensures
        step@ == started(pkg@),
{
    if pkg.upstream.as_str().is_empty() {
        Step::Done(
            ResolutionOutcome::Failed { name: pkg.name.clone(), reason: Error::EmptyUpstream },
        )
    } else {
        Step::Fetch { url: pkg.upstream.clone(), attempt: 1, delay_ms: 0 }
    }
}

/// The step after attempt number `attempt` gave `result`.
pub fn decide(pkg: &PackageDescriptor, attempt: u8, result: Result<String, Error>) -> (step: Step)
    ensures
        step@ == decided(pkg@, attempt, result_view(result)),
{
    match result {
        Ok(version) => Step::Done(
            ResolutionOutcome::Resolved(ResolvedVersion { name: pkg.name.clone(), version }),
        ),
        Err(e) => {
            if !e.is_retryable() {
                Step::Done(ResolutionOutcome::Failed { name: pkg.name.clone(), reason: e })
            } else if attempt < MAX_ATTEMPTS {
                Step::Fetch {
                    url: pkg.upstream.clone(),
                    attempt: attempt + 1,
                    delay_ms: RETRY_DELAY_MS,
                }
            } else {
                Step::Done(
                    ResolutionOutcome::Failed {
                        name: pkg.name.clone(),
                        reason: Error::GenericFailure,
                    },
                )
            }
        },
    }
}

/// The result of the attempt whose fetch ended as `fetched`: a failed
/// fetch is a `TransportFailure`, and on a page the attempt is made.
pub fn attempt_on(pkg: &PackageDescriptor, rules: &Vec<SelectorRule>, fetched: &Fetched) -> (r:
    Result<String, Error>)
    ensures
        attempt_on_allowed(pkg@, rules_view(rules@), page_of(*fetched), result_view(r)),
        r matches Err(e) ==> e != Error::EmptyUpstream && e != Error::GenericFailure,
{
    match fetched {
        Fetched::Failed => Err(Error::TransportFailure),
        Fetched::Page(html) => self::attempt(pkg, rules, html.as_str()),
    }
}

/// What follows the fetch of attempt number `attempt`, which ended as
/// `fetched`: the step that `decide` makes of the result of `attempt_on`,
/// and the failure of that attempt if it failed.
pub fn after_fetch(
    pkg: &PackageDescriptor,
    rules: &Vec<SelectorRule>,
    attempt: u8,
    fetched: &Fetched,
) -> (next: Advance)
    ensures
        advance_allowed(pkg@, rules_view(rules@), attempt, page_of(*fetched), next@),
        page_of(*fetched) is None ==> next@ == advanced(
            pkg@,
            attempt,
            Err(Error::TransportFailure),
        ),
        next@.step matches StepModel::Fetch { url, attempt: number, delay_ms } ==> attempt
            < MAX_ATTEMPTS && number == attempt + 1 && delay_ms == RETRY_DELAY_MS && url
            == pkg@.upstream && (next@.failure matches Some(e) && e.retryable()),
        next@.step matches StepModel::Done(outcome) ==> outcome.name() == pkg@.name,
        next@.step matches StepModel::Done(OutcomeModel::Resolved { .. }) <==> next@.failure
            is None,
{
    let result = attempt_on(pkg, rules, fetched);
    let ghost r = result_view(result);
    let failure = match &result {
        Ok(_) => None,
        Err(e) => Some(*e),
    };
    let step = decide(pkg, attempt, result);
    let next = Advance { step, failure };
    assert(next@ == advanced(pkg@, attempt, r));
    next
}

/// What a pipeline has done once the results of its attempts are used up
/// or it has ended: how often it fetched, how long it waited in all, and the
/// outcome if it has ended.
pub ghost struct RunModel {
    pub fetches: nat,
    pub waited_ms: nat,
    pub outcome: Option<OutcomeModel>,
}

/// What a pipeline does from `step` on, when its attempts give `results`
/// one after the other.
pub open spec fn run_from(
    pkg: PackageModel,
    step: StepModel,
    results: Seq<Result<Seq<char>, Error>>,
) -> RunModel
    decreases results.len(),
{
    match step {
        StepModel::Done(outcome) => RunModel { fetches: 0, waited_ms: 0, outcome: Some(outcome) },
        StepModel::Fetch { attempt, delay_ms, .. } => if results.len() == 0 {
            RunModel { fetches: 0, waited_ms: 0, outcome: None }
        } else {
            let rest = run_from(pkg, decided(pkg, attempt, results[0]), results.drop_first());
            RunModel {
                fetches: rest.fetches + 1,
                waited_ms: rest.waited_ms + delay_ms as nat,
                outcome: rest.outcome,
            }
        },
    }
}

/// What the pipeline of `pkg` does when its attempts give `results` one
/// after the other.
pub open spec fn run(pkg: PackageModel, results: Seq<Result<Seq<char>, Error>>) -> RunModel {
    run_from(pkg, started(pkg), results)
}

/// Whether the first `n` of `results` are failures that a retry may mend.
pub open spec fn all_retryable(results: Seq<Result<Seq<char>, Error>>, n: int) -> bool {
    &&& n <= results.len()
    &&& forall|i: int| 0 <= i < n ==> (#[trigger] results[i] matches Err(e) && e.retryable())
}

/// From attempt number `attempt` on, a pipeline whose attempts all fail in a
/// way that a retry may mend fetches until the last attempt is made and
/// then gives up.
proof fn lemma_retries_run_out(
    pkg: PackageModel,
    attempt: u8,
    delay_ms: u64,
    results: Seq<Result<Seq<char>, Error>>,
)
    requires
        1 <= attempt <= MAX_ATTEMPTS,
        all_retryable(results, MAX_ATTEMPTS - attempt + 1),
    ensures
        run_from(pkg, StepModel::Fetch { url: pkg.upstream, attempt, delay_ms }, results)
            == (
        RunModel {
            fetches: (MAX_ATTEMPTS - attempt + 1) as nat,
            waited_ms: (delay_ms + (MAX_ATTEMPTS - attempt) * RETRY_DELAY_MS) as nat,
            outcome: Some(OutcomeModel::Failed { name: pkg.name, reason: Error::GenericFailure }),
        }),
    decreases MAX_ATTEMPTS - attempt,
{
    reveal_with_fuel(run_from, 2);
    let rest = results.drop_first();
    assert(results[0] is Err);
    if attempt < MAX_ATTEMPTS {
        assert forall|i: int| 0 <= i < MAX_ATTEMPTS - attempt implies (#[trigger] rest[i] matches Err(
            e,
        ) && e.retryable()) by {
            assert(rest[i] == results[i + 1]);
        }
        lemma_retries_run_out(pkg, (attempt + 1) as u8, RETRY_DELAY_MS, rest);
    }
}

/// The retry bound: a pipeline whose every attempt fails in a way that a
/// retry may mend, as with `NoMatch`, fetches exactly `MAX_ATTEMPTS` times,
/// waits `RETRY_DELAY_MS` between one attempt and the next, and ends as
/// `GenericFailure`.
pub proof fn law_retry_bound(pkg: PackageModel, results: Seq<Result<Seq<char>, Error>>)
    requires
        pkg.upstream.len() > 0,
        all_retryable(results, MAX_ATTEMPTS as int),
    ensures
        run(pkg, results) == (RunModel {
            fetches: MAX_ATTEMPTS as nat,
            waited_ms: ((MAX_ATTEMPTS - 1) * RETRY_DELAY_MS) as nat,
            outcome: Some(OutcomeModel::Failed { name: pkg.name, reason: Error::GenericFailure }),
        }),
{
    lemma_retries_run_out(pkg, 1, 0, results);
}

/// The outcome with which a result that ends a pipeline ends it.
pub open spec fn outcome_of(pkg: PackageModel, result: Result<Seq<char>, Error>) -> OutcomeModel {
    match result {
        Ok(version) => OutcomeModel::Resolved { name: pkg.name, version },
        Err(e) => OutcomeModel::Failed { name: pkg.name, reason: e },
    }
}

/// From attempt number `attempt` on, a pipeline whose next `retries`
/// attempts fail in a way that a retry may mend, and whose attempt after
/// those gives a version or a failure that no retry would mend, ends at
/// that attempt with that result.
proof fn lemma_run_reaches(
    pkg: PackageModel,
    attempt: u8,
    delay_ms: u64,
    results: Seq<Result<Seq<char>, Error>>,
    retries: int,
)
    requires
        1 <= attempt,
        0 <= retries,
        attempt + retries <= MAX_ATTEMPTS,
        retries < results.len(),
        all_retryable(results, retries),
        results[retries] matches Err(e) ==> !e.retryable(),
    ensures
        run_from(pkg, StepModel::Fetch { url: pkg.upstream, attempt, delay_ms }, results)
            == (RunModel {
            fetches: (retries + 1) as nat,
            waited_ms: (delay_ms + retries * RETRY_DELAY_MS) as nat,
            outcome: Some(outcome_of(pkg, results[retries])),
        }),
    decreases retries,
{
    reveal_with_fuel(run_from, 2);
    let rest = results.drop_first();
    if retries > 0 {
        assert(results[0] is Err);
        assert forall|i: int| 0 <= i < retries - 1 implies (#[trigger] rest[i] matches Err(e)
            && e.retryable()) by {
            assert(rest[i] == results[i + 1]);
        }
        assert(rest[retries - 1] == results[retries]);
        lemma_run_reaches(pkg, (attempt + 1) as u8, RETRY_DELAY_MS, rest, retries - 1);
    }
}

/// A pipeline ends at the first attempt, within its budget, that gives a
/// version or a failure that no retry would mend: after `k - 1` failures
/// that a retry may mend, the result of attempt `k` is the outcome, `k`
/// fetches were made, and `RETRY_DELAY_MS` was waited between one and the
/// next.
pub proof fn law_run_ends_at_first_final_result(
    pkg: PackageModel,
    results: Seq<Result<Seq<char>, Error>>,
    k: int,
)
    requires
        pkg.upstream.len() > 0,
        1 <= k <= MAX_ATTEMPTS,
        k <= results.len(),
        all_retryable(results, k - 1),
        results[k - 1] matches Err(e) ==> !e.retryable(),
    ensures
        run(pkg, results) == (RunModel {
            fetches: k as nat,
            waited_ms: ((k - 1) * RETRY_DELAY_MS) as nat,
            outcome: Some(outcome_of(pkg, results[k - 1])),
        }),
{
    lemma_run_reaches(pkg, 1, 0, results, k - 1);
}

/// From attempt number `attempt` on, a pipeline fetches no more often than
/// there are attempts left, whatever the attempts give.
proof fn lemma_fetches_left(
    pkg: PackageModel,
    attempt: u8,
    delay_ms: u64,
    results: Seq<Result<Seq<char>, Error>>,
)
    requires
        1 <= attempt <= MAX_ATTEMPTS,
    ensures
        run_from(
            pkg,
            StepModel::Fetch { url: pkg.upstream, attempt, delay_ms },
            results,
        ).fetches <= MAX_ATTEMPTS - attempt + 1,
        run_from(
            pkg,
            StepModel::Fetch { url: pkg.upstream, attempt, delay_ms },
            results,
        ).waited_ms <= delay_ms + (MAX_ATTEMPTS - attempt) * RETRY_DELAY_MS,
    decreases results.len(),
{
    reveal_with_fuel(run_from, 2);
    if results.len() > 0 {
        let next = decided(pkg, attempt, results[0]);
        if next is Fetch {
            lemma_fetches_left(pkg, (attempt + 1) as u8, RETRY_DELAY_MS, results.drop_first());
        } else {
            assert(run_from(pkg, next, results.drop_first()).fetches == 0);
        }
    }
}

/// Whatever its attempts give, a pipeline fetches at most `MAX_ATTEMPTS`
/// times, and a package without upstream is never fetched.
pub proof fn law_fetches_bounded(pkg: PackageModel, results: Seq<Result<Seq<char>, Error>>)
    ensures
        run(pkg, results).fetches <= MAX_ATTEMPTS,
        run(pkg, results).waited_ms <= (MAX_ATTEMPTS - 1) * RETRY_DELAY_MS,
        pkg.upstream.len() == 0 ==> run(pkg, results) == (RunModel {
            fetches: 0,
            waited_ms: 0,
            outcome: Some(OutcomeModel::Failed { name: pkg.name, reason: Error::EmptyUpstream }),
        }),
{
    if pkg.upstream.len() > 0 {
        lemma_fetches_left(pkg, 1, 0, results);
    }
}

/// A failure that no retry would mend ends the pipeline at the attempt that
/// met it, and a version does so too.
pub proof fn law_terminal_result_ends(
    pkg: PackageModel,
    attempt: u8,
    result: Result<Seq<char>, Error>,
)
    requires
        result matches Err(e) ==> !e.retryable(),
    ensures
        decided(pkg, attempt, result) == StepModel::Done(outcome_of(pkg, result)),
{
}

/// What a pipeline has done: how often it fetched, how long it waited in
/// all, and the outcome if it has ended.
#[derive(Clone, Debug)]
pub struct Run {
    pub fetches: usize,
    pub waited_ms: u64,
    pub outcome: Option<ResolutionOutcome>,
}

impl View for Run {
    type V = RunModel;

    open spec fn view(&self) -> RunModel {
        RunModel {
            fetches: self.fetches as nat,
            waited_ms: self.waited_ms as nat,
            outcome: match self.outcome {
                Some(outcome) => Some(outcome@),
                None => None,
            },
        }
    }
}

/// The views of the results of a pipeline's attempts, in order.
pub open spec fn results_view(results: Seq<Result<String, Error>>) -> Seq<
    Result<Seq<char>, Error>,
> {
    Seq::new(results.len(), |i: int| result_view(results[i]))
}

/// A copy of the result of an attempt.
fn copy_of(result: &Result<String, Error>) -> (r: Result<String, Error>)
    ensures
        result_view(r) == result_view(*result),
{
    match result {
        Ok(version) => Ok(version.clone()),
        Err(e) => Err(*e),
    }
}

/// Runs the pipeline of `pkg` on given results of its attempts, without
/// fetching or waiting: the first attempt gives `results[0]`, the next
/// `results[1]`, and so on until the pipeline ends or the results are used
/// up.
pub fn simulate(pkg: &PackageDescriptor, results: &Vec<Result<String, Error>>) -> (done: Run)
    ensures
        done@ == run(pkg@, results_view(results@)),
{
    let ghost all = results_view(results@);
    let n = results.len();
    let mut step = start(pkg);
    let mut fetches: usize = 0;
    let mut waited_ms: u64 = 0;
    let mut i: usize = 0;
    assert(all.subrange(0, n as int) == all);
    loop
        invariant
            i <= n == results.len(),
            all == results_view(results@),
            fetches <= MAX_ATTEMPTS,
            waited_ms <= fetches * RETRY_DELAY_MS,
            step@ matches StepModel::Fetch { attempt, delay_ms, .. } ==> fetches + 1 == attempt
                <= MAX_ATTEMPTS && delay_ms <= RETRY_DELAY_MS,
            run(pkg@, all).fetches == fetches + run_from(
                pkg@,
                step@,
                all.subrange(i as int, n as int),
            ).fetches,
            run(pkg@, all).waited_ms == waited_ms + run_from(
                pkg@,
                step@,
                all.subrange(i as int, n as int),
            ).waited_ms,
            run(pkg@, all).outcome == run_from(
                pkg@,
                step@,
                all.subrange(i as int, n as int),
            ).outcome,
        decreases n - i,
    {
        match step {
            Step::Done(outcome) => {
                return Run { fetches, waited_ms, outcome: Some(outcome) };
            },
            Step::Fetch { url, attempt, delay_ms } => {
                if i == n {
                    return Run { fetches, waited_ms, outcome: None };
                }
                proof {
                    let rest = all.subrange(i as int, n as int);
                    assert(rest[0] == result_view(results@[i as int]));
                    assert(rest.drop_first() == all.subrange(i + 1, n as int));
                }
                fetches += 1;
                waited_ms += delay_ms;
                step = decide(pkg, attempt, copy_of(&results[i]));
                i += 1;
            },
        }
    }
}

} // verus!
