//! The course of a laboratory run and of a suite: what is done in which order,
//! what a failure ends, and what a suite counts in the end.

use crate::lab_suite::{PrepareError, PrepareErrorView};
use crate::order::{take_one_more, views, views_push};
use vstd::prelude::*;

verus! {

broadcast use views_push;

/// A file that is written on the way.
#[derive(Debug, Clone, Copy, PartialEq, Eq, Structural)]
pub enum Document {
    ReceiverRequest,
    ReceiverArtifacts,
    ReceiverLayout,
    DiscoveryRequest,
    DiscoveryReport,
    PlanningRequest,
    ShadowPlan,
    ShadowPlanReplay,
    SparsePolicy,
    MainCandidate,
    CaseCandidate,
    AlternativeCandidate,
    ShadowInput,
    ShadowReceipt,
    CaseSelection,
    SelectionPolicy,
    UniversalityInput,
    PromotionPolicy,
    PreparationSummary,
    SuiteSelectionInput,
    SuiteSelectionReceipt,
    SuiteUniversalityInput,
    SuiteUniversalityReceipt,
    SuitePromotionRequest,
    SuitePromotionReceipt,
    SuiteSummary,
}

impl Document {
    /// The name of the file.
    pub open spec fn file_text(self) -> Seq<char> {
        match self {
            Document::ReceiverRequest => "receiver-request.json"@,
            Document::ReceiverArtifacts => "receiver-artifacts.json"@,
            Document::ReceiverLayout => "receiver-layout.json"@,
            Document::DiscoveryRequest => "discovery-request.json"@,
            Document::DiscoveryReport => "02-discovery-report.json"@,
            Document::PlanningRequest => "planning-request.json"@,
            Document::ShadowPlan => "03-shadow-plan.json"@,
            Document::ShadowPlanReplay => "04-shadow-plan-replay.json"@,
            Document::SparsePolicy => "sparse-policy.json"@,
            Document::MainCandidate => "prepared-main-candidate.json"@,
            Document::CaseCandidate => "05-materialization-candidate.json"@,
            Document::AlternativeCandidate => "prepared-alternative-candidate.json"@,
            Document::ShadowInput => "shadow-input.json"@,
            Document::ShadowReceipt => "06-shadow-evaluation-receipt.json"@,
            Document::CaseSelection => "07-backend-selection-receipt.json"@,
            Document::SelectionPolicy => "selection-policy.json"@,
            Document::UniversalityInput => "universality-input.json"@,
            Document::PromotionPolicy => "promotion-policy.json"@,
            Document::PreparationSummary => "preparation-summary.json"@,
            Document::SuiteSelectionInput => "suite-backend-selection-input.json"@,
            Document::SuiteSelectionReceipt => "suite-backend-selection-receipt.json"@,
            Document::SuiteUniversalityInput => "suite-universality-input.json"@,
            Document::SuiteUniversalityReceipt => "suite-universality-receipt.json"@,
            Document::SuitePromotionRequest => "suite-promotion-request.json"@,
            Document::SuitePromotionReceipt => "suite-promotion-receipt.json"@,
            Document::SuiteSummary => "suite-summary.json"@,
        }
    }

    /// The name of the file.
    pub fn file_name(self) -> (name: &'static str)
        ensures
            name@ == self.file_text(),
    {
        match self {
            Document::ReceiverRequest => "receiver-request.json",
            Document::ReceiverArtifacts => "receiver-artifacts.json",
            Document::ReceiverLayout => "receiver-layout.json",
            Document::DiscoveryRequest => "discovery-request.json",
            Document::DiscoveryReport => "02-discovery-report.json",
            Document::PlanningRequest => "planning-request.json",
            Document::ShadowPlan => "03-shadow-plan.json",
            Document::ShadowPlanReplay => "04-shadow-plan-replay.json",
            Document::SparsePolicy => "sparse-policy.json",
            Document::MainCandidate => "prepared-main-candidate.json",
            Document::CaseCandidate => "05-materialization-candidate.json",
            Document::AlternativeCandidate => "prepared-alternative-candidate.json",
            Document::ShadowInput => "shadow-input.json",
            Document::ShadowReceipt => "06-shadow-evaluation-receipt.json",
            Document::CaseSelection => "07-backend-selection-receipt.json",
            Document::SelectionPolicy => "selection-policy.json",
            Document::UniversalityInput => "universality-input.json",
            Document::PromotionPolicy => "promotion-policy.json",
            Document::PreparationSummary => "preparation-summary.json",
            Document::SuiteSelectionInput => "suite-backend-selection-input.json",
            Document::SuiteSelectionReceipt => "suite-backend-selection-receipt.json",
            Document::SuiteUniversalityInput => "suite-universality-input.json",
            Document::SuiteUniversalityReceipt => "suite-universality-receipt.json",
            Document::SuitePromotionRequest => "suite-promotion-request.json",
            Document::SuitePromotionReceipt => "suite-promotion-receipt.json",
            Document::SuiteSummary => "suite-summary.json",
        }
    }
}

/// One thing that the host does.
#[derive(Debug, Clone, Copy, PartialEq, Eq, Structural)]
pub enum Action {
    /// Create the directory that the files go to.
    CreateDirectory,
    /// Choose the tensor that a receiver is studied with.
    SelectTensor,
    /// Make the request to inspect the receiver.
    RequestReceiver,
    /// Inspect the receiver.
    Inspect,
    /// Tell the receiver and its family.
    Identify,
    Write(Document),
    /// Judge the discovery of the capability.
    Discover,
    /// Make the planning request and execute it.
    Plan,
    /// Materialise the candidate of the plan.
    Materialize,
    /// Choose the other backend.
    ChooseAlternative,
    /// Execute the planning request for the other backend.
    PlanAlternative,
    /// Materialise the candidate of the other plan.
    MaterializeAlternative,
    /// Put the evaluation together.
    PrepareShadowInput,
    /// Evaluate the candidate in isolation.
    EvaluateShadow,
    /// Select among the evaluated backends.
    SelectBackend,
    /// Count the trial.
    RecordTrial,
    /// Judge the evidence for universality.
    MeasureUniversality,
    /// Judge the readiness for promotion.
    EvaluatePromotion,
    /// Tell what was produced.
    Announce,
}

/// A fixed sequence of actions.
#[derive(Debug, Clone, Copy, PartialEq, Eq, Structural)]
pub enum Course {
    /// A single run.
    Run,
    /// What a suite does with a receiver before its cases.
    Receiver,
    /// One capability with one seed on one receiver of a suite.
    Case,
    /// What a suite does after its receivers.
    Closing,
}

impl Course {
    /// The actions of a course in their order.
    pub open spec fn actions(self) -> Seq<Action> {
        match self {
            Course::Run => seq![
                Action::CreateDirectory,
                Action::RequestReceiver,
                Action::Write(Document::ReceiverRequest),
                Action::Inspect,
                Action::Write(Document::ReceiverArtifacts),
                Action::Write(Document::ReceiverLayout),
                Action::Write(Document::DiscoveryRequest),
                Action::Plan,
                Action::Write(Document::PlanningRequest),
                Action::Write(Document::SparsePolicy),
                Action::Materialize,
                Action::Write(Document::MainCandidate),
                Action::ChooseAlternative,
                Action::PlanAlternative,
                Action::MaterializeAlternative,
                Action::Write(Document::AlternativeCandidate),
                Action::PrepareShadowInput,
                Action::Write(Document::ShadowInput),
                Action::Write(Document::SelectionPolicy),
                Action::Write(Document::UniversalityInput),
                Action::Write(Document::PromotionPolicy),
                Action::Write(Document::PreparationSummary),
                Action::Announce,
            ],
            Course::Receiver => seq![
                Action::SelectTensor,
                Action::RequestReceiver,
                Action::Inspect,
                Action::Identify,
                Action::Write(Document::ReceiverRequest),
                Action::Write(Document::ReceiverArtifacts),
                Action::Write(Document::ReceiverLayout),
            ],
            Course::Case => seq![
                Action::CreateDirectory,
                Action::Write(Document::ReceiverRequest),
                Action::Write(Document::ReceiverArtifacts),
                Action::Write(Document::ReceiverLayout),
                Action::Write(Document::DiscoveryRequest),
                Action::Discover,
                Action::Write(Document::DiscoveryReport),
                Action::Plan,
                Action::Write(Document::PlanningRequest),
                Action::Write(Document::ShadowPlan),
                Action::Write(Document::ShadowPlanReplay),
                Action::Write(Document::SparsePolicy),
                Action::Materialize,
                Action::Write(Document::CaseCandidate),
                Action::ChooseAlternative,
                Action::PlanAlternative,
                Action::MaterializeAlternative,
                Action::Write(Document::AlternativeCandidate),
                Action::PrepareShadowInput,
                Action::Write(Document::ShadowInput),
                Action::EvaluateShadow,
                Action::Write(Document::ShadowReceipt),
                Action::SelectBackend,
                Action::Write(Document::CaseSelection),
                Action::RecordTrial,
            ],
            Course::Closing => seq![
                Action::SelectBackend,
                Action::Write(Document::SuiteSelectionInput),
                Action::Write(Document::SuiteSelectionReceipt),
                Action::MeasureUniversality,
                Action::Write(Document::SuiteUniversalityInput),
                Action::Write(Document::SuiteUniversalityReceipt),
                Action::EvaluatePromotion,
                Action::Write(Document::SuitePromotionRequest),
                Action::Write(Document::SuitePromotionReceipt),
                Action::Write(Document::SuiteSummary),
                Action::Announce,
            ],
        }
    }

    /// The actions of a course in their order.
    pub fn list(self) -> (list: Vec<Action>)
        ensures
            list@ == self.actions(),
    {
        let list = match self {
            Course::Run => vec![
                Action::CreateDirectory,
                Action::RequestReceiver,
                Action::Write(Document::ReceiverRequest),
                Action::Inspect,
                Action::Write(Document::ReceiverArtifacts),
                Action::Write(Document::ReceiverLayout),
                Action::Write(Document::DiscoveryRequest),
                Action::Plan,
                Action::Write(Document::PlanningRequest),
                Action::Write(Document::SparsePolicy),
                Action::Materialize,
                Action::Write(Document::MainCandidate),
                Action::ChooseAlternative,
                Action::PlanAlternative,
                Action::MaterializeAlternative,
                Action::Write(Document::AlternativeCandidate),
                Action::PrepareShadowInput,
                Action::Write(Document::ShadowInput),
                Action::Write(Document::SelectionPolicy),
                Action::Write(Document::UniversalityInput),
                Action::Write(Document::PromotionPolicy),
                Action::Write(Document::PreparationSummary),
                Action::Announce,
            ],
            Course::Receiver => vec![
                Action::SelectTensor,
                Action::RequestReceiver,
                Action::Inspect,
                Action::Identify,
                Action::Write(Document::ReceiverRequest),
                Action::Write(Document::ReceiverArtifacts),
                Action::Write(Document::ReceiverLayout),
            ],
            Course::Case => vec![
                Action::CreateDirectory,
                Action::Write(Document::ReceiverRequest),
                Action::Write(Document::ReceiverArtifacts),
                Action::Write(Document::ReceiverLayout),
                Action::Write(Document::DiscoveryRequest),
                Action::Discover,
                Action::Write(Document::DiscoveryReport),
                Action::Plan,
                Action::Write(Document::PlanningRequest),
                Action::Write(Document::ShadowPlan),
                Action::Write(Document::ShadowPlanReplay),
                Action::Write(Document::SparsePolicy),
                Action::Materialize,
                Action::Write(Document::CaseCandidate),
                Action::ChooseAlternative,
                Action::PlanAlternative,
                Action::MaterializeAlternative,
                Action::Write(Document::AlternativeCandidate),
                Action::PrepareShadowInput,
                Action::Write(Document::ShadowInput),
                Action::EvaluateShadow,
                Action::Write(Document::ShadowReceipt),
                Action::SelectBackend,
                Action::Write(Document::CaseSelection),
                Action::RecordTrial,
            ],
            Course::Closing => vec![
                Action::SelectBackend,
                Action::Write(Document::SuiteSelectionInput),
                Action::Write(Document::SuiteSelectionReceipt),
                Action::MeasureUniversality,
                Action::Write(Document::SuiteUniversalityInput),
                Action::Write(Document::SuiteUniversalityReceipt),
                Action::EvaluatePromotion,
                Action::Write(Document::SuitePromotionRequest),
                Action::Write(Document::SuitePromotionReceipt),
                Action::Write(Document::SuiteSummary),
                Action::Announce,
            ],
        };
        assert(list@ =~= self.actions());
        list
    }
}

/// The outcomes of the actions taken so far, in their order.
#[derive(Debug)]
pub struct Outcomes {
    pub items: Vec<Result<(), PrepareError>>,
}

/// What contracts say of the outcome of an action.
pub open spec fn done_or_not(result: Result<(), PrepareError>) -> Result<(), PrepareErrorView> {
    match result {
        Ok(_) => Ok(()),
        Err(error) => Err(error@),
    }
}

impl View for Outcomes {
    type V = Seq<Result<(), PrepareErrorView>>;

    open spec fn view(&self) -> Seq<Result<(), PrepareErrorView>> {
        Seq::new(self.items@.len(), |i: int| done_or_not(self.items@[i]))
    }
}

/// The first failure among outcomes.
pub open spec fn first_failure(outcomes: Seq<Result<(), PrepareErrorView>>) -> Option<
    PrepareErrorView,
>
    decreases outcomes.len(),
{
    if outcomes.len() == 0 {
        None
    } else {
        match first_failure(outcomes.drop_last()) {
            Some(error) => Some(error),
            None => match outcomes.last() {
                Err(error) => Some(error),
                Ok(_) => None,
            },
        }
    }
}

/// What a course comes to.
#[derive(Debug)]
pub enum Next {
    Failed(PrepareError),
    Perform(Action),
    Done,
}

/// The model of a [`Next`].
pub enum NextModel {
    Failed(PrepareErrorView),
    Perform(Action),
    Done,
}

impl View for Next {
    type V = NextModel;

    open spec fn view(&self) -> NextModel {
        match self {
            Next::Failed(error) => NextModel::Failed(error@),
            Next::Perform(action) => NextModel::Perform(*action),
            Next::Done => NextModel::Done,
        }
    }
}

/// What a course comes to: its first failure, its next action, or its end.
pub open spec fn next_of(
    course: Course,
    outcomes: Seq<Result<(), PrepareErrorView>>,
) -> NextModel {
    match first_failure(outcomes) {
        Some(error) => NextModel::Failed(error),
        None => if outcomes.len() < course.actions().len() {
            NextModel::Perform(course.actions()[outcomes.len() as int])
        } else {
            NextModel::Done
        },
    }
}

/// Decides what a course comes to.
pub fn next(course: Course, outcomes: &Outcomes) -> (step: Next)
    ensures
        step@ == next_of(course, outcomes@),
{
    let ghost models = outcomes@;
    assert(models.take(0) == Seq::<Result<(), PrepareErrorView>>::empty());
    for i in 0..outcomes.items.len()
        invariant
            models == outcomes@,
            first_failure(models.take(i as int)) is None,
    {
        assert(models.take(i + 1).drop_last() == models.take(i as int));
        assert(models.take(i + 1).last() == done_or_not(outcomes.items@[i as int]));
        if let Err(error) = &outcomes.items[i] {
            proof {
                lemma_first_failure_persists(models, i + 1);
            }
            return Next::Failed(error.duplicate());
        }
    }
    assert(models.take(models.len() as int) == models);
    let actions = course.list();
    if outcomes.items.len() < actions.len() {
        Next::Perform(actions[outcomes.items.len()])
    } else {
        Next::Done
    }
}

proof fn lemma_first_failure_persists(outcomes: Seq<Result<(), PrepareErrorView>>, n: int)
    requires
        0 <= n <= outcomes.len(),
        first_failure(outcomes.take(n)) is Some,
    ensures
        first_failure(outcomes) == first_failure(outcomes.take(n)),
    decreases outcomes.len() - n,
{
    if n == outcomes.len() {
        assert(outcomes.take(n) == outcomes);
    } else {
        assert(outcomes.take(n + 1).drop_last() == outcomes.take(n));
        lemma_first_failure_persists(outcomes, n + 1);
    }
}

/// Nothing follows a failure: whatever is reported after it, the course has
/// failed with it.
pub proof fn nothing_follows_a_failure(
    course: Course,
    before: Seq<Result<(), PrepareErrorView>>,
    after: Seq<Result<(), PrepareErrorView>>,
)
    requires
        next_of(course, before) is Failed,
    ensures
        next_of(course, before + after) == next_of(course, before),
{
    assert((before + after).take(before.len() as int) =~= before);
    lemma_first_failure_persists(before + after, before.len() as int);
}

/// A single run takes its actions one after the other.
pub fn run(outcomes: &Outcomes) -> (step: Next)
    ensures
        step@ == next_of(Course::Run, outcomes@),
{
    next(Course::Run, outcomes)
}

/// What was done with one receiver of a suite.
#[derive(Debug)]
pub struct ReceiverProgress {
    pub opening: Outcomes,
    /// Its cases: for every capability, one for every seed.
    pub cases: Vec<Outcomes>,
}

/// The model of a [`ReceiverProgress`].
pub struct ReceiverProgressModel {
    pub opening: Seq<Result<(), PrepareErrorView>>,
    pub cases: Seq<Seq<Result<(), PrepareErrorView>>>,
}

impl View for ReceiverProgress {
    type V = ReceiverProgressModel;

    open spec fn view(&self) -> ReceiverProgressModel {
        ReceiverProgressModel { opening: self.opening@, cases: views(self.cases@) }
    }
}

/// What a suite has done so far.
#[derive(Debug)]
pub struct SuiteProgress {
    pub receivers: Vec<ReceiverProgress>,
    pub closing: Outcomes,
}

/// The model of a [`SuiteProgress`].
pub struct SuiteProgressModel {
    pub receivers: Seq<ReceiverProgressModel>,
    pub closing: Seq<Result<(), PrepareErrorView>>,
}

impl View for SuiteProgress {
    type V = SuiteProgressModel;

    open spec fn view(&self) -> SuiteProgressModel {
        SuiteProgressModel { receivers: views(self.receivers@), closing: self.closing@ }
    }
}

/// The extent of a suite.
#[derive(Debug, Clone, Copy, PartialEq, Eq, Structural)]
pub struct SuiteExtent {
    pub receivers: usize,
    pub capabilities: usize,
    pub seeds: usize,
}

impl SuiteExtent {
    /// How many cases a receiver has.
    pub open spec fn cases(self) -> int {
        self.capabilities * self.seeds
    }
}

/// One case of a suite: a capability with a seed on a receiver, by their positions.
#[derive(Debug, Clone, Copy, PartialEq, Eq, Structural)]
pub struct CaseId {
    pub receiver: usize,
    pub capability: usize,
    pub seed: usize,
}

/// The model of a [`CaseId`].
pub struct CaseModel {
    pub receiver: int,
    pub capability: int,
    pub seed: int,
}

impl View for CaseId {
    type V = CaseModel;

    open spec fn view(&self) -> CaseModel {
        CaseModel {
            receiver: self.receiver as int,
            capability: self.capability as int,
            seed: self.seed as int,
        }
    }
}

/// A receiver that failed, when opened or in a case, and why.
#[derive(Debug)]
pub struct ReceiverFailure {
    pub receiver: usize,
    pub error: PrepareError,
}

/// The model of a [`ReceiverFailure`].
pub struct FailureModel {
    pub receiver: int,
    pub error: PrepareErrorView,
}

impl View for ReceiverFailure {
    type V = FailureModel;

    open spec fn view(&self) -> FailureModel {
        FailureModel { receiver: self.receiver as int, error: self.error@ }
    }
}

/// What the receivers of a suite came to. The completed cases, and no others, are
/// what the suite selects, measures and promotes on.
#[derive(Debug)]
pub struct SuiteEvidence {
    /// The receivers that could be opened, in their order.
    pub receivers: Vec<usize>,
    /// The cases that were completed, in their order.
    pub cases: Vec<CaseId>,
    /// The receivers that failed, in their order.
    pub failures: Vec<ReceiverFailure>,
}

/// The model of a [`SuiteEvidence`].
pub struct EvidenceModel {
    pub receivers: Seq<usize>,
    pub cases: Seq<CaseModel>,
    pub failures: Seq<FailureModel>,
}

impl View for SuiteEvidence {
    type V = EvidenceModel;

    open spec fn view(&self) -> EvidenceModel {
        EvidenceModel {
            receivers: self.receivers@,
            cases: views(self.cases@),
            failures: views(self.failures@),
        }
    }
}

/// What a suite counts in the end.
#[derive(Debug, Clone, Copy, PartialEq, Eq, Structural)]
pub struct SuiteTally {
    /// The receivers that could be opened.
    pub receivers: usize,
    /// The cases that were completed.
    pub cases: usize,
    /// The receivers that failed, when opened or in a case.
    pub failures: usize,
}

impl SuiteEvidence {
    /// What the evidence adds up to.
    pub fn tally(&self) -> (tally: SuiteTally)
        ensures
            tally.receivers == self@.receivers.len(),
            tally.cases == self@.cases.len(),
            tally.failures == self@.failures.len(),
    {
        SuiteTally {
            receivers: self.receivers.len(),
            cases: self.cases.len(),
            failures: self.failures.len(),
        }
    }
}

/// The outcomes at a position, none where nothing was done there yet.
pub open spec fn case_at(
    cases: Seq<Seq<Result<(), PrepareErrorView>>>,
    i: int,
) -> Seq<Result<(), PrepareErrorView>> {
    if i < cases.len() {
        cases[i]
    } else {
        Seq::empty()
    }
}

/// Where a receiver stands.
pub enum StandingModel {
    Opening(Action),
    Case(int, Action),
    Failed(PrepareErrorView),
    Complete,
}

/// Where the cases of a receiver stand from a position on.
pub open spec fn cases_from(
    cases: Seq<Seq<Result<(), PrepareErrorView>>>,
    i: int,
    total: int,
) -> StandingModel
    decreases total - i,
{
    if i >= total {
        StandingModel::Complete
    } else {
        match next_of(Course::Case, case_at(cases, i)) {
            NextModel::Failed(error) => StandingModel::Failed(error),
            NextModel::Perform(action) => StandingModel::Case(i, action),
            NextModel::Done => cases_from(cases, i + 1, total),
        }
    }
}

/// How many cases of a receiver are complete from a position on, up to the
/// first that is not.
pub open spec fn completed_from(
    cases: Seq<Seq<Result<(), PrepareErrorView>>>,
    i: int,
    total: int,
) -> int
    decreases total - i,
{
    if i < total && next_of(Course::Case, case_at(cases, i)) is Done {
        1 + completed_from(cases, i + 1, total)
    } else {
        0
    }
}

/// The receiver at a position, untouched where nothing was done with it yet.
pub open spec fn receiver_at(
    receivers: Seq<ReceiverProgressModel>,
    r: int,
) -> ReceiverProgressModel {
    if r < receivers.len() {
        receivers[r]
    } else {
        ReceiverProgressModel { opening: Seq::empty(), cases: Seq::empty() }
    }
}

/// Where a receiver stands: its cases begin once it is open, and its first
/// failure ends it.
pub open spec fn receiver_standing(receiver: ReceiverProgressModel, total: int) -> StandingModel {
    match next_of(Course::Receiver, receiver.opening) {
        NextModel::Failed(error) => StandingModel::Failed(error),
        NextModel::Perform(action) => StandingModel::Opening(action),
        NextModel::Done => cases_from(receiver.cases, 0, total),
    }
}

/// Whether a receiver was opened.
pub open spec fn opened(receiver: ReceiverProgressModel) -> bool {
    next_of(Course::Receiver, receiver.opening) is Done
}

/// How many cases of a receiver were completed.
pub open spec fn completed(receiver: ReceiverProgressModel, total: int) -> int {
    if opened(receiver) {
        completed_from(receiver.cases, 0, total)
    } else {
        0
    }
}

/// The first `n` cases of a receiver; the seeds of a capability follow each other.
pub open spec fn first_cases(extent: SuiteExtent, r: int, n: int) -> Seq<CaseModel> {
    Seq::new(
        n as nat,
        |i: int|
            CaseModel {
                receiver: r,
                capability: i / (extent.seeds as int),
                seed: i % (extent.seeds as int),
            },
    )
}

/// What the first `n` receivers came to. What a receiver completed before it failed
/// still counts.
pub open spec fn evidence_of(
    extent: SuiteExtent,
    receivers: Seq<ReceiverProgressModel>,
    n: int,
) -> EvidenceModel
    decreases n,
{
    if n <= 0 {
        EvidenceModel { receivers: Seq::empty(), cases: Seq::empty(), failures: Seq::empty() }
    } else {
        let before = evidence_of(extent, receivers, n - 1);
        let receiver = receiver_at(receivers, n - 1);
        EvidenceModel {
            receivers: if opened(receiver) {
                before.receivers.push((n - 1) as usize)
            } else {
                before.receivers
            },
            cases: before.cases + first_cases(
                extent,
                n - 1,
                completed(receiver, extent.cases()),
            ),
            failures: match receiver_standing(receiver, extent.cases()) {
                StandingModel::Failed(error) => before.failures.push(
                    FailureModel { receiver: n - 1, error },
                ),
                _ => before.failures,
            },
        }
    }
}

/// What a suite does next, or how it ended.
#[derive(Debug)]
pub enum SuiteStep {
    Failed(PrepareError),
    /// Do this with a receiver before its cases.
    Open { receiver: usize, action: Action },
    /// Do this for one case of a receiver.
    Case { receiver: usize, capability: usize, seed: usize, action: Action },
    /// Do this after all receivers, with what they came to.
    Close { action: Action, evidence: SuiteEvidence },
    Done(SuiteEvidence),
}

/// The model of a [`SuiteStep`].
pub enum SuiteStepModel {
    Failed(PrepareErrorView),
    Open { receiver: int, action: Action },
    Case { receiver: int, capability: int, seed: int, action: Action },
    Close { action: Action, evidence: EvidenceModel },
    Done(EvidenceModel),
}

impl View for SuiteStep {
    type V = SuiteStepModel;

    open spec fn view(&self) -> SuiteStepModel {
        match self {
            SuiteStep::Failed(error) => SuiteStepModel::Failed(error@),
            SuiteStep::Open { receiver, action } => SuiteStepModel::Open {
                receiver: *receiver as int,
                action: *action,
            },
            SuiteStep::Case { receiver, capability, seed, action } => SuiteStepModel::Case {
                receiver: *receiver as int,
                capability: *capability as int,
                seed: *seed as int,
                action: *action,
            },
            SuiteStep::Close { action, evidence } => SuiteStepModel::Close {
                action: *action,
                evidence: evidence@,
            },
            SuiteStep::Done(evidence) => SuiteStepModel::Done(evidence@),
        }
    }
}

/// What a suite does after its receivers: without a completed case there is no
/// evidence.
pub open spec fn closing_step(
    evidence: EvidenceModel,
    closing: Seq<Result<(), PrepareErrorView>>,
) -> SuiteStepModel {
    if evidence.cases.len() == 0 {
        SuiteStepModel::Failed(PrepareErrorView::Message("suite_produced_no_evidence"@))
    } else {
        match next_of(Course::Closing, closing) {
            NextModel::Failed(error) => SuiteStepModel::Failed(error),
            NextModel::Perform(action) => SuiteStepModel::Close { action, evidence },
            NextModel::Done => SuiteStepModel::Done(evidence),
        }
    }
}

/// What a suite does from a receiver on. A receiver that failed is passed over;
/// what it completed before still counts.
pub open spec fn suite_from(
    extent: SuiteExtent,
    progress: SuiteProgressModel,
    r: int,
) -> SuiteStepModel
    decreases extent.receivers - r,
{
    if r >= extent.receivers {
        closing_step(
            evidence_of(extent, progress.receivers, extent.receivers as int),
            progress.closing,
        )
    } else {
        match receiver_standing(receiver_at(progress.receivers, r), extent.cases()) {
            StandingModel::Opening(action) => SuiteStepModel::Open { receiver: r, action },
            StandingModel::Case(i, action) => SuiteStepModel::Case {
                receiver: r,
                capability: i / (extent.seeds as int),
                seed: i % (extent.seeds as int),
                action,
            },
            StandingModel::Failed(_) | StandingModel::Complete => suite_from(
                extent,
                progress,
                r + 1,
            ),
        }
    }
}

proof fn lemma_completed_bound(cases: Seq<Seq<Result<(), PrepareErrorView>>>, i: int, total: int)
    requires
        i <= total,
    ensures
        0 <= completed_from(cases, i, total) <= total - i,
    decreases total - i,
{
    if i < total {
        lemma_completed_bound(cases, i + 1, total);
    }
}

proof fn lemma_complete_cases(cases: Seq<Seq<Result<(), PrepareErrorView>>>, i: int, total: int)
    requires
        i <= total,
        cases_from(cases, i, total) is Complete,
    ensures
        completed_from(cases, i, total) == total - i,
    decreases total - i,
{
    if i < total {
        lemma_complete_cases(cases, i + 1, total);
    }
}

/// Where a receiver of a suite stands.
enum Standing {
    Opening(Action),
    Case(usize, Action),
    Failed(PrepareError),
    Complete,
}

impl Standing {
    spec fn matches(self, model: StandingModel) -> bool {
        match self {
            Standing::Opening(action) => model == StandingModel::Opening(action),
            Standing::Case(i, action) => model == StandingModel::Case(i as int, action),
            Standing::Failed(error) => model == StandingModel::Failed(error@),
            Standing::Complete => model is Complete,
        }
    }
}

/// Where a receiver stands, with how many cases it completed.
fn standing_of(receiver: &ReceiverProgress, total: usize) -> (found: (Standing, usize))
    ensures
        found.0.matches(receiver_standing(receiver@, total as int)),
        found.1 == completed(receiver@, total as int),
        found.1 <= total,
{
    match next(Course::Receiver, &receiver.opening) {
        Next::Failed(error) => {
            return (Standing::Failed(error), 0);
        },
        Next::Perform(action) => {
            return (Standing::Opening(action), 0);
        },
        Next::Done => {},
    }
    let ghost models = views(receiver.cases@);
    for i in 0..total
        invariant
            models == views(receiver.cases@),
            cases_from(models, 0, total as int) == cases_from(models, i as int, total as int),
            completed_from(models, 0, total as int) == i + completed_from(
                models,
                i as int,
                total as int,
            ),
            opened(receiver@),
    {
        let nothing = Outcomes { items: Vec::new() };
        let outcomes = if i < receiver.cases.len() {
            assert(models[i as int] == receiver.cases@[i as int]@);
            &receiver.cases[i]
        } else {
            &nothing
        };
        assert(nothing@ =~= Seq::empty());
        assert(outcomes@ == case_at(models, i as int));
        match next(Course::Case, outcomes) {
            Next::Failed(error) => {
                return (Standing::Failed(error), i);
            },
            Next::Perform(action) => {
                return (Standing::Case(i, action), i);
            },
            Next::Done => {},
        }
    }
    (Standing::Complete, total)
}

/// Adds the first `count` cases of a receiver.
fn add_cases(extent: SuiteExtent, r: usize, count: usize, cases: &mut Vec<CaseId>)
    requires
        count > 0 ==> extent.seeds > 0,
    ensures
        views(final(cases)@) == views(old(cases)@) + first_cases(extent, r as int, count as int),
{
    let ghost before = views(cases@);
    let ghost wanted = first_cases(extent, r as int, count as int);
    assert(before + wanted.take(0) =~= before);
    for i in 0..count
        invariant
            count > 0 ==> extent.seeds > 0,
            wanted == first_cases(extent, r as int, count as int),
            views(cases@) == before + wanted.take(i as int),
    {
        cases.push(CaseId { receiver: r, capability: i / extent.seeds, seed: i % extent.seeds });
        proof {
            take_one_more(wanted, i as int);
            assert(before + wanted.take(i + 1) =~= (before + wanted.take(i as int)).push(
                wanted[i as int],
            ));
        }
    }
    assert(wanted.take(wanted.len() as int) == wanted);
}

/// Decides what a suite does next, or how it ends.
pub fn run_suite(extent: SuiteExtent, progress: &SuiteProgress) -> (step: SuiteStep)
    requires
        extent.cases() <= usize::MAX,
    ensures
        step@ == suite_from(extent, progress@, 0),
{
    let total: usize = extent.capabilities * extent.seeds;
    let ghost models = views(progress.receivers@);
    let mut receivers: Vec<usize> = Vec::new();
    let mut cases: Vec<CaseId> = Vec::new();
    let mut failures: Vec<ReceiverFailure> = Vec::new();
    assert(views(cases@) =~= Seq::empty());
    assert(views(failures@) =~= Seq::empty());
    for r in 0..extent.receivers
        invariant
            total == extent.cases(),
            models == views(progress.receivers@),
            progress@.receivers == models,
            suite_from(extent, progress@, 0) == suite_from(extent, progress@, r as int),
            (EvidenceModel {
                receivers: receivers@,
                cases: views(cases@),
                failures: views(failures@),
            }) == evidence_of(extent, models, r as int),
    {
        let nothing = ReceiverProgress {
            opening: Outcomes { items: Vec::new() },
            cases: Vec::new(),
        };
        let receiver = if r < progress.receivers.len() {
            assert(models[r as int] == progress.receivers@[r as int]@);
            &progress.receivers[r]
        } else {
            &nothing
        };
        assert(nothing@.opening =~= Seq::empty());
        assert(nothing@.cases =~= Seq::empty());
        assert(receiver@ == receiver_at(models, r as int));
        let (standing, count) = standing_of(receiver, total);
        match standing {
            Standing::Opening(action) => {
                return SuiteStep::Open { receiver: r, action };
            },
            Standing::Case(i, action) => {
                proof {
                    lemma_case_in_range(receiver@.cases, 0, total as int);
                    lemma_positive_seeds(extent);
                }
                return SuiteStep::Case {
                    receiver: r,
                    capability: i / extent.seeds,
                    seed: i % extent.seeds,
                    action,
                };
            },
            Standing::Failed(error) => {
                failures.push(ReceiverFailure { receiver: r, error });
            },
            Standing::Complete => {},
        }
        if let Next::Done = next(Course::Receiver, &receiver.opening) {
            receivers.push(r);
        }
        proof {
            if count > 0 {
                lemma_positive_seeds(extent);
            }
        }
        add_cases(extent, r, count, &mut cases);
    }
    if cases.len() == 0 {
        return SuiteStep::Failed(PrepareError::message("suite_produced_no_evidence"));
    }
    let evidence = SuiteEvidence { receivers, cases, failures };
    match next(Course::Closing, &progress.closing) {
        Next::Failed(error) => SuiteStep::Failed(error),
        Next::Perform(action) => SuiteStep::Close { action, evidence },
        Next::Done => SuiteStep::Done(evidence),
    }
}

proof fn lemma_case_in_range(cases: Seq<Seq<Result<(), PrepareErrorView>>>, i: int, total: int)
    ensures
        cases_from(cases, i, total) matches StandingModel::Case(at, _) ==> i <= at < total,
    decreases total - i,
{
    if i < total {
        lemma_case_in_range(cases, i + 1, total);
    }
}

proof fn lemma_positive_seeds(extent: SuiteExtent)
    requires
        extent.cases() > 0,
    ensures
        extent.seeds > 0,
{
    if extent.seeds == 0 {
        assert(extent.capabilities * 0 == 0);
    }
}

/// A case that a suite asks for is one of its cases.
pub proof fn suite_cases_are_within_the_extent(
    extent: SuiteExtent,
    progress: SuiteProgressModel,
    r: int,
)
    requires
        0 <= r,
    ensures
        suite_from(extent, progress, r) matches SuiteStepModel::Case {
            receiver,
            capability,
            seed,
            ..
        } ==> {
            &&& r <= receiver < extent.receivers
            &&& 0 <= capability < extent.capabilities
            &&& 0 <= seed < extent.seeds
        },
    decreases extent.receivers - r,
{
    if r < extent.receivers {
        let total = extent.cases();
        match receiver_standing(receiver_at(progress.receivers, r), total) {
            StandingModel::Case(i, action) => {
                lemma_case_in_range(receiver_at(progress.receivers, r).cases, 0, total);
                lemma_positive_seeds(extent);
                let s = extent.seeds as int;
                let c = extent.capabilities as int;
                assert(0 <= i / s && i / s < c && 0 <= i % s && i % s < s) by (nonlinear_arith)
                    requires
                        0 <= i < c * s,
                        s > 0,
                ;
            },
            StandingModel::Opening(_) => {},
            _ => {
                suite_cases_are_within_the_extent(extent, progress, r + 1);
            },
        }
    }
}

/// What a suite closes with, or ends with.
pub open spec fn closing_evidence(step: SuiteStepModel) -> Option<EvidenceModel> {
    match step {
        SuiteStepModel::Close { evidence, .. } => Some(evidence),
        SuiteStepModel::Done(evidence) => Some(evidence),
        _ => None,
    }
}

/// A suite that closes has dealt with every receiver: each one failed or completed
/// all its cases. It has evidence. Without a failure, every receiver was opened and
/// every case was completed.
pub proof fn finished_suites_account_for_every_receiver(
    extent: SuiteExtent,
    progress: SuiteProgressModel,
)
    ensures
        closing_evidence(suite_from(extent, progress, 0)) matches Some(evidence) ==> {
            &&& evidence.cases.len() > 0
            &&& forall|r: int|
                0 <= r < extent.receivers ==> {
                    let standing = receiver_standing(
                        #[trigger] receiver_at(progress.receivers, r),
                        extent.cases(),
                    );
                    standing is Failed || standing is Complete
                }
            &&& evidence.failures.len() == 0 ==> evidence.receivers.len() == extent.receivers
                && evidence.cases.len() == extent.receivers * extent.cases()
        },
{
    if closing_evidence(suite_from(extent, progress, 0)) is Some {
        lemma_closed_from(extent, progress, 0);
        lemma_cases_counted(extent);
        lemma_tally(extent, progress, extent.receivers as int);
    }
}

/// A failure does not stop a suite: the evidence that a suite closes with lists
/// exactly the receivers that failed, each once with its first error and in their
/// order.
pub proof fn failures_are_listed_in_order(extent: SuiteExtent, progress: SuiteProgressModel)
    ensures
        closing_evidence(suite_from(extent, progress, 0)) matches Some(evidence) ==> {
            let failures = evidence.failures;
            &&& forall|i: int, j: int|
                0 <= i < j < failures.len() ==> (#[trigger] failures[i]).receiver < (
                #[trigger] failures[j]).receiver
            &&& forall|i: int|
                0 <= i < failures.len() ==> 0 <= (#[trigger] failures[i]).receiver
                    < extent.receivers && receiver_standing(
                    receiver_at(progress.receivers, failures[i].receiver),
                    extent.cases(),
                ) == StandingModel::Failed(failures[i].error)
            &&& forall|r: int|
                0 <= r < extent.receivers && receiver_standing(
                    #[trigger] receiver_at(progress.receivers, r),
                    extent.cases(),
                ) is Failed ==> exists|i: int|
                    0 <= i < failures.len() && (#[trigger] failures[i]).receiver == r
        },
{
    if closing_evidence(suite_from(extent, progress, 0)) is Some {
        lemma_closed_from(extent, progress, 0);
        lemma_failures(extent, progress.receivers, extent.receivers as int);
    }
}

proof fn lemma_failures(extent: SuiteExtent, receivers: Seq<ReceiverProgressModel>, n: int)
    requires
        0 <= n,
    ensures
        ({
            let failures = evidence_of(extent, receivers, n).failures;
            &&& forall|i: int, j: int|
                0 <= i < j < failures.len() ==> (#[trigger] failures[i]).receiver < (
                #[trigger] failures[j]).receiver
            &&& forall|i: int|
                0 <= i < failures.len() ==> 0 <= (#[trigger] failures[i]).receiver < n
                    && receiver_standing(
                    receiver_at(receivers, failures[i].receiver),
                    extent.cases(),
                ) == StandingModel::Failed(failures[i].error)
            &&& forall|r: int|
                0 <= r < n && receiver_standing(
                    #[trigger] receiver_at(receivers, r),
                    extent.cases(),
                ) is Failed ==> exists|i: int|
                    0 <= i < failures.len() && (#[trigger] failures[i]).receiver == r
        }),
    decreases n,
{
    if n > 0 {
        lemma_failures(extent, receivers, n - 1);
        let before = evidence_of(extent, receivers, n - 1).failures;
        let failures = evidence_of(extent, receivers, n).failures;
        assert forall|r: int|
            0 <= r < n && receiver_standing(
                #[trigger] receiver_at(receivers, r),
                extent.cases(),
            ) is Failed implies exists|i: int|
            0 <= i < failures.len() && (#[trigger] failures[i]).receiver == r by {
            if r < n - 1 {
                let i = choose|i: int| 0 <= i < before.len() && (#[trigger] before[i]).receiver == r;
                assert(failures[i].receiver == r);
            } else {
                assert(failures[failures.len() - 1].receiver == r);
            }
        }
    }
}

/// The evidence that a suite closes with lists exactly the completed cases: those
/// of an opened receiver that come before its first incomplete one.
pub proof fn evidence_lists_the_completed_cases(
    extent: SuiteExtent,
    progress: SuiteProgressModel,
    r: int,
    i: int,
)
    requires
        closing_evidence(suite_from(extent, progress, 0)) is Some,
        0 <= r < extent.receivers,
        0 <= i < extent.cases(),
    ensures
        closing_evidence(suite_from(extent, progress, 0))->0.cases.contains(
            CaseModel {
                receiver: r,
                capability: i / (extent.seeds as int),
                seed: i % (extent.seeds as int),
            },
        ) <==> i < completed(receiver_at(progress.receivers, r), extent.cases()),
{
    lemma_closed_from(extent, progress, 0);
    lemma_positive_seeds(extent);
    lemma_listed(extent, progress.receivers, extent.receivers as int, r, i);
}

proof fn lemma_listed(
    extent: SuiteExtent,
    receivers: Seq<ReceiverProgressModel>,
    n: int,
    r: int,
    i: int,
)
    requires
        0 <= n,
        0 <= r,
        0 <= i,
        extent.seeds > 0,
    ensures
        evidence_of(extent, receivers, n).cases.contains(
            CaseModel {
                receiver: r,
                capability: i / (extent.seeds as int),
                seed: i % (extent.seeds as int),
            },
        ) <==> r < n && i < completed(receiver_at(receivers, r), extent.cases()),
    decreases n,
{
    let s = extent.seeds as int;
    let case = CaseModel { receiver: r, capability: i / s, seed: i % s };
    if n > 0 {
        lemma_listed(extent, receivers, n - 1, r, i);
        let before = evidence_of(extent, receivers, n - 1).cases;
        let count = completed(receiver_at(receivers, n - 1), extent.cases());
        lemma_completed_bound_of(receiver_at(receivers, n - 1), extent);
        let added = first_cases(extent, n - 1, count);
        let after = evidence_of(extent, receivers, n).cases;
        assert(after == before + added);
        if before.contains(case) {
            let k = choose|k: int| 0 <= k < before.len() && before[k] == case;
            assert(after[k] == case);
        }
        if after.contains(case) && !before.contains(case) {
            let k = choose|k: int| 0 <= k < after.len() && after[k] == case;
            if k < before.len() {
                assert(before[k] == case);
            }
            let m = k - before.len();
            assert(added[m] == case);
            assert(m / s == i / s && m % s == i % s);
            vstd::arithmetic::div_mod::lemma_fundamental_div_mod(m, s);
            vstd::arithmetic::div_mod::lemma_fundamental_div_mod(i, s);
        }
        if r == n - 1 && i < count {
            assert(after[before.len() + i] == added[i]);
            assert(added[i] == case);
        }
    }
}

proof fn lemma_completed_bound_of(receiver: ReceiverProgressModel, extent: SuiteExtent)
    ensures
        0 <= completed(receiver, extent.cases()) <= extent.cases(),
{
    lemma_cases_counted(extent);
    lemma_completed_bound(receiver.cases, 0, extent.cases());
}

proof fn lemma_cases_counted(extent: SuiteExtent)
    ensures
        extent.cases() >= 0,
{
    assert(extent.capabilities * extent.seeds >= 0) by (nonlinear_arith)
        requires
            extent.capabilities >= 0,
            extent.seeds >= 0,
    ;
}

proof fn lemma_closed_from(extent: SuiteExtent, progress: SuiteProgressModel, r: int)
    requires
        0 <= r <= extent.receivers,
        closing_evidence(suite_from(extent, progress, r)) is Some,
    ensures
        closing_evidence(suite_from(extent, progress, r)) == Some(
            evidence_of(extent, progress.receivers, extent.receivers as int),
        ),
        evidence_of(extent, progress.receivers, extent.receivers as int).cases.len() > 0,
        forall|q: int|
            r <= q < extent.receivers ==> {
                let standing = receiver_standing(
                    #[trigger] receiver_at(progress.receivers, q),
                    extent.cases(),
                );
                standing is Failed || standing is Complete
            },
    decreases extent.receivers - r,
{
    if r < extent.receivers {
        lemma_closed_from(extent, progress, r + 1);
    }
}

proof fn lemma_tally(extent: SuiteExtent, progress: SuiteProgressModel, n: int)
    requires
        0 <= n <= extent.receivers,
        extent.cases() >= 0,
        forall|r: int|
            0 <= r < extent.receivers ==> {
                let standing = receiver_standing(
                    #[trigger] receiver_at(progress.receivers, r),
                    extent.cases(),
                );
                standing is Failed || standing is Complete
            },
    ensures
        ({
            let evidence = evidence_of(extent, progress.receivers, n);
            evidence.failures.len() == 0 ==> evidence.receivers.len() == n
                && evidence.cases.len() == n * extent.cases()
        }),
    decreases n,
{
    let total = extent.cases();
    if n > 0 {
        lemma_tally(extent, progress, n - 1);
        let receiver = receiver_at(progress.receivers, n - 1);
        lemma_completed_bound(receiver.cases, 0, total);
        if receiver_standing(receiver, total) is Complete {
            lemma_complete_cases(receiver.cases, 0, total);
        }
        assert((n - 1) * total + total == n * total) by (nonlinear_arith);
    } else {
        assert(0 * total == 0);
    }
}

/// Whether one action comes before another in a list.
pub open spec fn precedes(list: Seq<Action>, first: Action, second: Action) -> bool {
    exists|i: int, j: int|
        0 <= i < j < list.len() && #[trigger] list[i] == first && #[trigger] list[j] == second
}

/// Whether the actions of a chain come in that order in a list.
pub open spec fn in_turn(list: Seq<Action>, chain: Seq<Action>) -> bool {
    forall|k: int, l: int|
        0 <= k < l < chain.len() ==> precedes(list, #[trigger] chain[k], #[trigger] chain[l])
}

proof fn lemma_part_comes_in_turn(list: Seq<Action>, from: int, to: int)
    requires
        0 <= from <= to <= list.len(),
    ensures
        in_turn(list, list.subrange(from, to)),
{
    let chain = list.subrange(from, to);
    assert forall|k: int, l: int| 0 <= k < l < chain.len() implies precedes(
        list,
        #[trigger] chain[k],
        #[trigger] chain[l],
    ) by {
        assert(list[from + k] == chain[k] && list[from + l] == chain[l]);
    }
}

/// A run asks for its receiver before it inspects it, plans before it materialises,
/// makes the alternative after the main candidate, and prepares the evaluation from
/// both. What a step makes is written after it, and the announcement comes last.
pub proof fn runs_take_every_step_after_what_it_builds_on()
    ensures
        Course::Run.actions().len() == 23,
        in_turn(
            Course::Run.actions(),
            seq![
                Action::CreateDirectory,
                Action::RequestReceiver,
                Action::Write(Document::ReceiverRequest),
                Action::Inspect,
                Action::Write(Document::ReceiverArtifacts),
                Action::Write(Document::ReceiverLayout),
            ],
        ),
        in_turn(
            Course::Run.actions(),
            seq![
                Action::Write(Document::ReceiverLayout),
                Action::Write(Document::DiscoveryRequest),
                Action::Plan,
                Action::Write(Document::PlanningRequest),
                Action::Write(Document::SparsePolicy),
                Action::Materialize,
                Action::Write(Document::MainCandidate),
            ],
        ),
        in_turn(
            Course::Run.actions(),
            seq![
                Action::Write(Document::MainCandidate),
                Action::ChooseAlternative,
                Action::PlanAlternative,
                Action::MaterializeAlternative,
                Action::Write(Document::AlternativeCandidate),
            ],
        ),
        in_turn(
            Course::Run.actions(),
            seq![
                Action::Write(Document::AlternativeCandidate),
                Action::PrepareShadowInput,
                Action::Write(Document::ShadowInput),
                Action::Write(Document::SelectionPolicy),
                Action::Write(Document::UniversalityInput),
                Action::Write(Document::PromotionPolicy),
                Action::Write(Document::PreparationSummary),
                Action::Announce,
            ],
        ),
{
    let list = Course::Run.actions();
    assert(seq![
        Action::CreateDirectory,
        Action::RequestReceiver,
        Action::Write(Document::ReceiverRequest),
        Action::Inspect,
        Action::Write(Document::ReceiverArtifacts),
        Action::Write(Document::ReceiverLayout),
    ] =~= list.subrange(0, 6));
    lemma_part_comes_in_turn(list, 0, 6);
    assert(seq![
        Action::Write(Document::ReceiverLayout),
        Action::Write(Document::DiscoveryRequest),
        Action::Plan,
        Action::Write(Document::PlanningRequest),
        Action::Write(Document::SparsePolicy),
        Action::Materialize,
        Action::Write(Document::MainCandidate),
    ] =~= list.subrange(5, 12));
    lemma_part_comes_in_turn(list, 5, 12);
    assert(seq![
        Action::Write(Document::MainCandidate),
        Action::ChooseAlternative,
        Action::PlanAlternative,
        Action::MaterializeAlternative,
        Action::Write(Document::AlternativeCandidate),
    ] =~= list.subrange(11, 16));
    lemma_part_comes_in_turn(list, 11, 16);
    assert(seq![
        Action::Write(Document::AlternativeCandidate),
        Action::PrepareShadowInput,
        Action::Write(Document::ShadowInput),
        Action::Write(Document::SelectionPolicy),
        Action::Write(Document::UniversalityInput),
        Action::Write(Document::PromotionPolicy),
        Action::Write(Document::PreparationSummary),
        Action::Announce,
    ] =~= list.subrange(15, 23));
    lemma_part_comes_in_turn(list, 15, 23);
}

/// A receiver is opened by choosing its tensor, asking for it, inspecting and then
/// identifying it; only then is anything written.
pub proof fn receivers_are_identified_before_they_are_written_down()
    ensures
        Course::Receiver.actions().len() == 7,
        in_turn(
            Course::Receiver.actions(),
            seq![
                Action::SelectTensor,
                Action::RequestReceiver,
                Action::Inspect,
                Action::Identify,
            ],
        ),
        in_turn(
            Course::Receiver.actions(),
            seq![
                Action::Identify,
                Action::Write(Document::ReceiverRequest),
                Action::Write(Document::ReceiverArtifacts),
                Action::Write(Document::ReceiverLayout),
            ],
        ),
{
    let list = Course::Receiver.actions();
    assert(seq![
        Action::SelectTensor,
        Action::RequestReceiver,
        Action::Inspect,
        Action::Identify,
    ] =~= list.subrange(0, 4));
    lemma_part_comes_in_turn(list, 0, 4);
    assert(seq![
        Action::Identify,
        Action::Write(Document::ReceiverRequest),
        Action::Write(Document::ReceiverArtifacts),
        Action::Write(Document::ReceiverLayout),
    ] =~= list.subrange(3, 7));
    lemma_part_comes_in_turn(list, 3, 7);
}

/// A case writes down its receiver, discovers, plans, materialises, makes the
/// alternative, evaluates and selects, in this order, and records its trial last. What
/// a step makes is written after it.
pub proof fn cases_take_every_step_after_what_it_builds_on()
    ensures
        Course::Case.actions().len() == 25,
        in_turn(
            Course::Case.actions(),
            seq![
                Action::CreateDirectory,
                Action::Write(Document::ReceiverRequest),
                Action::Write(Document::ReceiverArtifacts),
                Action::Write(Document::ReceiverLayout),
                Action::Write(Document::DiscoveryRequest),
                Action::Discover,
                Action::Write(Document::DiscoveryReport),
            ],
        ),
        in_turn(
            Course::Case.actions(),
            seq![
                Action::Write(Document::DiscoveryReport),
                Action::Plan,
                Action::Write(Document::PlanningRequest),
                Action::Write(Document::ShadowPlan),
                Action::Write(Document::ShadowPlanReplay),
                Action::Write(Document::SparsePolicy),
                Action::Materialize,
                Action::Write(Document::CaseCandidate),
            ],
        ),
        in_turn(
            Course::Case.actions(),
            seq![
                Action::Write(Document::CaseCandidate),
                Action::ChooseAlternative,
                Action::PlanAlternative,
                Action::MaterializeAlternative,
                Action::Write(Document::AlternativeCandidate),
            ],
        ),
        in_turn(
            Course::Case.actions(),
            seq![
                Action::Write(Document::AlternativeCandidate),
                Action::PrepareShadowInput,
                Action::Write(Document::ShadowInput),
                Action::EvaluateShadow,
                Action::Write(Document::ShadowReceipt),
                Action::SelectBackend,
                Action::Write(Document::CaseSelection),
                Action::RecordTrial,
            ],
        ),
{
    let list = Course::Case.actions();
    assert(seq![
        Action::CreateDirectory,
        Action::Write(Document::ReceiverRequest),
        Action::Write(Document::ReceiverArtifacts),
        Action::Write(Document::ReceiverLayout),
        Action::Write(Document::DiscoveryRequest),
        Action::Discover,
        Action::Write(Document::DiscoveryReport),
    ] =~= list.subrange(0, 7));
    lemma_part_comes_in_turn(list, 0, 7);
    assert(seq![
        Action::Write(Document::DiscoveryReport),
        Action::Plan,
        Action::Write(Document::PlanningRequest),
        Action::Write(Document::ShadowPlan),
        Action::Write(Document::ShadowPlanReplay),
        Action::Write(Document::SparsePolicy),
        Action::Materialize,
        Action::Write(Document::CaseCandidate),
    ] =~= list.subrange(6, 14));
    lemma_part_comes_in_turn(list, 6, 14);
    assert(seq![
        Action::Write(Document::CaseCandidate),
        Action::ChooseAlternative,
        Action::PlanAlternative,
        Action::MaterializeAlternative,
        Action::Write(Document::AlternativeCandidate),
    ] =~= list.subrange(13, 18));
    lemma_part_comes_in_turn(list, 13, 18);
    assert(seq![
        Action::Write(Document::AlternativeCandidate),
        Action::PrepareShadowInput,
        Action::Write(Document::ShadowInput),
        Action::EvaluateShadow,
        Action::Write(Document::ShadowReceipt),
        Action::SelectBackend,
        Action::Write(Document::CaseSelection),
        Action::RecordTrial,
    ] =~= list.subrange(17, 25));
    lemma_part_comes_in_turn(list, 17, 25);
}

/// A suite closes by selecting a backend, then by measuring universality, then by
/// evaluating promotion, each written before the next; the summary and the
/// announcement come last.
pub proof fn suites_close_by_selection_universality_and_promotion()
    ensures
        Course::Closing.actions().len() == 11,
        in_turn(
            Course::Closing.actions(),
            seq![
                Action::SelectBackend,
                Action::Write(Document::SuiteSelectionInput),
                Action::Write(Document::SuiteSelectionReceipt),
            ],
        ),
        in_turn(
            Course::Closing.actions(),
            seq![
                Action::Write(Document::SuiteSelectionReceipt),
                Action::MeasureUniversality,
                Action::Write(Document::SuiteUniversalityInput),
                Action::Write(Document::SuiteUniversalityReceipt),
            ],
        ),
        in_turn(
            Course::Closing.actions(),
            seq![
                Action::Write(Document::SuiteUniversalityReceipt),
                Action::EvaluatePromotion,
                Action::Write(Document::SuitePromotionRequest),
                Action::Write(Document::SuitePromotionReceipt),
                Action::Write(Document::SuiteSummary),
                Action::Announce,
            ],
        ),
{
    let list = Course::Closing.actions();
    assert(seq![
        Action::SelectBackend,
        Action::Write(Document::SuiteSelectionInput),
        Action::Write(Document::SuiteSelectionReceipt),
    ] =~= list.subrange(0, 3));
    lemma_part_comes_in_turn(list, 0, 3);
    assert(seq![
        Action::Write(Document::SuiteSelectionReceipt),
        Action::MeasureUniversality,
        Action::Write(Document::SuiteUniversalityInput),
        Action::Write(Document::SuiteUniversalityReceipt),
    ] =~= list.subrange(2, 6));
    lemma_part_comes_in_turn(list, 2, 6);
    assert(seq![
        Action::Write(Document::SuiteUniversalityReceipt),
        Action::EvaluatePromotion,
        Action::Write(Document::SuitePromotionRequest),
        Action::Write(Document::SuitePromotionReceipt),
        Action::Write(Document::SuiteSummary),
        Action::Announce,
    ] =~= list.subrange(5, 11));
    lemma_part_comes_in_turn(list, 5, 11);
}

/// Every document goes to the file that is named after it.
pub proof fn documents_go_to_their_files(document: Document)
    ensures
        document is ReceiverRequest ==> document.file_text() == "receiver-request.json"@,
        document is ReceiverArtifacts ==> document.file_text() == "receiver-artifacts.json"@,
        document is ReceiverLayout ==> document.file_text() == "receiver-layout.json"@,
        document is DiscoveryRequest ==> document.file_text() == "discovery-request.json"@,
        document is DiscoveryReport ==> document.file_text() == "02-discovery-report.json"@,
        document is PlanningRequest ==> document.file_text() == "planning-request.json"@,
        document is ShadowPlan ==> document.file_text() == "03-shadow-plan.json"@,
        document is ShadowPlanReplay ==> document.file_text() == "04-shadow-plan-replay.json"@,
        document is SparsePolicy ==> document.file_text() == "sparse-policy.json"@,
        document is MainCandidate ==> document.file_text() == "prepared-main-candidate.json"@,
        document is CaseCandidate ==> document.file_text() == "05-materialization-candidate.json"@,
        document is AlternativeCandidate ==> document.file_text() == "prepared-alternative-candidate.json"@,
        document is ShadowInput ==> document.file_text() == "shadow-input.json"@,
        document is ShadowReceipt ==> document.file_text() == "06-shadow-evaluation-receipt.json"@,
        document is CaseSelection ==> document.file_text() == "07-backend-selection-receipt.json"@,
        document is SelectionPolicy ==> document.file_text() == "selection-policy.json"@,
        document is UniversalityInput ==> document.file_text() == "universality-input.json"@,
        document is PromotionPolicy ==> document.file_text() == "promotion-policy.json"@,
        document is PreparationSummary ==> document.file_text() == "preparation-summary.json"@,
        document is SuiteSelectionInput ==> document.file_text() == "suite-backend-selection-input.json"@,
        document is SuiteSelectionReceipt ==> document.file_text() == "suite-backend-selection-receipt.json"@,
        document is SuiteUniversalityInput ==> document.file_text() == "suite-universality-input.json"@,
        document is SuiteUniversalityReceipt ==> document.file_text() == "suite-universality-receipt.json"@,
        document is SuitePromotionRequest ==> document.file_text() == "suite-promotion-request.json"@,
        document is SuitePromotionReceipt ==> document.file_text() == "suite-promotion-receipt.json"@,
        document is SuiteSummary ==> document.file_text() == "suite-summary.json"@,
{
}

proof fn lemma_first_failure_is_the_first(outcomes: Seq<Result<(), PrepareErrorView>>)
    ensures
        first_failure(outcomes) matches Some(error) ==> exists|i: int|
            0 <= i < outcomes.len() && #[trigger] outcomes[i] == Err::<(), _>(error) && forall|j: int|
                0 <= j < i ==> #[trigger] outcomes[j] is Ok,
        first_failure(outcomes) is None <==> forall|j: int|
            0 <= j < outcomes.len() ==> #[trigger] outcomes[j] is Ok,
    decreases outcomes.len(),
{
    if outcomes.len() > 0 {
        let front = outcomes.drop_last();
        lemma_first_failure_is_the_first(front);
        assert(forall|j: int| 0 <= j < front.len() ==> front[j] == #[trigger] outcomes[j]);
        assert(forall|j: int| 0 <= j < front.len() ==> #[trigger] front[j] == outcomes[j]);
        let n = outcomes.len() - 1;
        if first_failure(front) is Some {
            let error = first_failure(front)->0;
            let i = choose|i: int|
                0 <= i < front.len() && #[trigger] front[i] == Err::<(), _>(error) && forall|j: int|
                    0 <= j < i ==> #[trigger] front[j] is Ok;
            assert(outcomes[i] == Err::<(), _>(error));
        } else if outcomes.last() is Err {
            assert(outcomes[n] == Err::<(), _>(outcomes.last()->Err_0));
        }
    }
}

/// A course goes on with its next action as long as everything went well, is done
/// after its last one, and fails with the first error that it met.
pub proof fn courses_go_on_until_something_fails(
    course: Course,
    outcomes: Seq<Result<(), PrepareErrorView>>,
)
    ensures
        next_of(course, outcomes) matches NextModel::Failed(error) ==> exists|i: int|
            0 <= i < outcomes.len() && #[trigger] outcomes[i] == Err::<(), _>(error) && forall|j: int|
                0 <= j < i ==> #[trigger] outcomes[j] is Ok,
        next_of(course, outcomes) is Failed <==> !(forall|j: int|
            0 <= j < outcomes.len() ==> #[trigger] outcomes[j] is Ok),
        next_of(course, outcomes) matches NextModel::Perform(action) ==> outcomes.len()
            < course.actions().len() && action == course.actions()[outcomes.len() as int],
        next_of(course, outcomes) is Done ==> outcomes.len() >= course.actions().len(),
{
    lemma_first_failure_is_the_first(outcomes);
}

/// Whether a receiver needs nothing more: it did not open, or one of its cases failed
/// after those before it were completed, or all of them were.
pub open spec fn settled(receiver: ReceiverProgressModel, total: int) -> bool {
    ||| next_of(Course::Receiver, receiver.opening) is Failed
    ||| next_of(Course::Receiver, receiver.opening) is Done && exists|n: int|
        #![trigger completed_before(receiver, n)]
        0 <= n <= total && completed_before(receiver, n) && (n < total ==> next_of(
            Course::Case,
            case_at(receiver.cases, n),
        ) is Failed)
}

/// Whether every case of a receiver before the given one is done.
pub open spec fn completed_before(receiver: ReceiverProgressModel, n: int) -> bool {
    forall|i: int|
        0 <= i < n ==> next_of(Course::Case, #[trigger] case_at(receiver.cases, i)) is Done
}

proof fn lemma_cases_in_turn(receiver: ReceiverProgressModel, i: int, total: int)
    requires
        0 <= i <= total,
        completed_before(receiver, i),
    ensures
        match cases_from(receiver.cases, i, total) {
            StandingModel::Case(at, action) => i <= at < total && completed_before(receiver, at)
                && next_of(Course::Case, case_at(receiver.cases, at)) == NextModel::Perform(action),
            StandingModel::Failed(error) => exists|n: int|
                #![trigger completed_before(receiver, n)]
                0 <= n < total && completed_before(receiver, n) && next_of(
                    Course::Case,
                    case_at(receiver.cases, n),
                ) == NextModel::Failed(error),
            StandingModel::Complete => completed_before(receiver, total),
            StandingModel::Opening(_) => false,
        },
    decreases total - i,
{
    if i < total {
        match next_of(Course::Case, case_at(receiver.cases, i)) {
            NextModel::Done => {
                assert(completed_before(receiver, i + 1));
                lemma_cases_in_turn(receiver, i + 1, total);
            },
            NextModel::Failed(error) => {
                assert(completed_before(receiver, i));
            },
            NextModel::Perform(_) => {},
        }
    }
}

/// Whether a step of a suite is taken in its turn: a receiver is opened, or one of its
/// cases gone on with, only when every receiver before it is settled and every case
/// before it is completed; the case is counted by capability and then by seed; and
/// the suite closes only when every receiver is settled.
pub open spec fn taken_in_turn(
    extent: SuiteExtent,
    progress: SuiteProgressModel,
    step: SuiteStepModel,
) -> bool {
    let all_settled = forall|q: int|
        0 <= q < extent.receivers ==> settled(
            #[trigger] receiver_at(progress.receivers, q),
            extent.cases(),
        );
    match step {
        SuiteStepModel::Open { receiver, action } => {
            &&& 0 <= receiver < extent.receivers
            &&& forall|q: int|
                0 <= q < receiver ==> settled(
                    #[trigger] receiver_at(progress.receivers, q),
                    extent.cases(),
                )
            &&& next_of(Course::Receiver, receiver_at(progress.receivers, receiver).opening)
                == NextModel::Perform(action)
        },
        SuiteStepModel::Case { receiver, capability, seed, action } => {
            let at = capability * extent.seeds + seed;
            let one = receiver_at(progress.receivers, receiver);
            &&& 0 <= receiver < extent.receivers
            &&& 0 <= seed < extent.seeds
            &&& forall|q: int|
                0 <= q < receiver ==> settled(
                    #[trigger] receiver_at(progress.receivers, q),
                    extent.cases(),
                )
            &&& next_of(Course::Receiver, one.opening) is Done
            &&& completed_before(one, at)
            &&& next_of(Course::Case, case_at(one.cases, at)) == NextModel::Perform(action)
        },
        SuiteStepModel::Close { action, .. } => all_settled && next_of(
            Course::Closing,
            progress.closing,
        ) == NextModel::Perform(action),
        SuiteStepModel::Done(_) => all_settled && next_of(
            Course::Closing,
            progress.closing,
        ) is Done,
        SuiteStepModel::Failed(error) => all_settled && (next_of(
            Course::Closing,
            progress.closing,
        ) == NextModel::Failed(error) || error == PrepareErrorView::Message(
            "suite_produced_no_evidence"@,
        )),
    }
}

proof fn lemma_suite_in_turn(extent: SuiteExtent, progress: SuiteProgressModel, r: int)
    requires
        0 <= r <= extent.receivers,
        forall|q: int|
            0 <= q < r ==> settled(#[trigger] receiver_at(progress.receivers, q), extent.cases()),
    ensures
        taken_in_turn(extent, progress, suite_from(extent, progress, r)),
    decreases extent.receivers - r,
{
    lemma_cases_counted(extent);
    let total = extent.cases();
    if r < extent.receivers {
        let one = receiver_at(progress.receivers, r);
        if next_of(Course::Receiver, one.opening) is Done {
            assert(completed_before(one, 0));
            lemma_cases_in_turn(one, 0, total);
        }
        match receiver_standing(one, total) {
            StandingModel::Opening(_) => {},
            StandingModel::Case(i, action) => {
                lemma_positive_seeds(extent);
                vstd::arithmetic::div_mod::lemma_fundamental_div_mod(i, extent.seeds as int);
                let s = extent.seeds as int;
                assert((i / s) * s + i % s == i) by (nonlinear_arith)
                    requires
                        i == s * (i / s) + i % s,
                ;
            },
            _ => {
                assert(settled(one, total)) by {
                    if next_of(Course::Receiver, one.opening) is Done
                        && receiver_standing(one, total) is Complete {
                        assert(completed_before(one, total));
                    }
                }
                lemma_suite_in_turn(extent, progress, r + 1);
            },
        }
    }
}

/// A suite goes through its receivers in turn and through the cases of each in turn:
/// it opens a receiver or goes on with a case only when everything before is settled,
/// the case is the next one by capability and then by seed, and the action is the
/// next one of its course. It closes only when every receiver is settled.
pub proof fn suites_take_receivers_and_cases_in_turn(
    extent: SuiteExtent,
    progress: SuiteProgressModel,
)
    ensures
        taken_in_turn(extent, progress, suite_from(extent, progress, 0)),
{
    lemma_suite_in_turn(extent, progress, 0);
}

proof fn lemma_receivers_listed(extent: SuiteExtent, receivers: Seq<ReceiverProgressModel>, n: int)
    requires
        0 <= n <= usize::MAX,
    ensures
        ({
            let listed = evidence_of(extent, receivers, n).receivers;
            &&& forall|i: int, j: int|
                0 <= i < j < listed.len() ==> #[trigger] listed[i] < #[trigger] listed[j]
            &&& forall|i: int| 0 <= i < listed.len() ==> #[trigger] listed[i] < n
            &&& forall|r: int|
                0 <= r < n ==> (listed.contains(r as usize) <==> next_of(
                    Course::Receiver,
                    (#[trigger] receiver_at(receivers, r)).opening,
                ) is Done)
        }),
    decreases n,
{
    if n > 0 {
        lemma_receivers_listed(extent, receivers, n - 1);
        let before = evidence_of(extent, receivers, n - 1).receivers;
        let listed = evidence_of(extent, receivers, n).receivers;
        assert forall|r: int| 0 <= r < n implies (listed.contains(r as usize) <==> next_of(
            Course::Receiver,
            (#[trigger] receiver_at(receivers, r)).opening,
        ) is Done) by {
            if r < n - 1 {
                if before.contains(r as usize) {
                    let k = choose|k: int| 0 <= k < before.len() && before[k] == r as usize;
                    assert(listed[k] == r as usize);
                }
                if listed.contains(r as usize) {
                    let k = choose|k: int| 0 <= k < listed.len() && listed[k] == r as usize;
                    assert(before[k] == r as usize);
                }
            } else {
                if opened(receiver_at(receivers, r)) {
                    assert(listed[before.len() as int] == r as usize);
                } else if listed.contains(r as usize) {
                    let k = choose|k: int| 0 <= k < listed.len() && listed[k] == r as usize;
                    assert(before[k] < n - 1);
                }
            }
        }
    }
}

/// The evidence of a suite lists exactly the receivers that were opened, in their
/// order.
pub proof fn evidence_lists_the_opened_receivers(extent: SuiteExtent, progress: SuiteProgressModel)
    ensures
        closing_evidence(suite_from(extent, progress, 0)) matches Some(evidence) ==> {
            &&& forall|i: int, j: int|
                0 <= i < j < evidence.receivers.len() ==> #[trigger] evidence.receivers[i]
                    < #[trigger] evidence.receivers[j]
            &&& forall|i: int|
                0 <= i < evidence.receivers.len() ==> #[trigger] evidence.receivers[i]
                    < extent.receivers
            &&& forall|r: int|
                0 <= r < extent.receivers ==> (evidence.receivers.contains(r as usize) <==> next_of(
                    Course::Receiver,
                    (#[trigger] receiver_at(progress.receivers, r)).opening,
                ) is Done)
        },
{
    if closing_evidence(suite_from(extent, progress, 0)) is Some {
        lemma_closed_from(extent, progress, 0);
        lemma_receivers_listed(extent, progress.receivers, extent.receivers as int);
    }
}

} // verus!
