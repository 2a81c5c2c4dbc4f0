//! What a laboratory run is configured with: its arguments, its capabilities, its
//! seeds, and the signatures that follow from them.

use crate::error::{BrainError, BrainResult, ErrorView};
use crate::identity::{CapabilityId, TensorId};
use crate::order::{
    has_name, insert_named, key_less, keys_are_totally_ordered, outcome, outcomes, placed,
    strictly_ascending, take_one_more, views, views_push, KeyModel, Named, NamedModel,
};
use crate::receiver_profile::MaterializationStrategy;
use crate::scalar::{Scalar, ONE_BITS, SIGN_BIT};
use crate::text::{
    chars_of, numeral_u64, parse_u64, pieces, split, split_on, text_eq, text_of, trim, trimmed,
    Margin,
};
use vstd::arithmetic::div_mod::lemma_add_mod_noop;
use vstd::prelude::*;

verus! {

broadcast use views_push;

/// Why a run cannot be prepared.
#[derive(Debug)]
pub enum PrepareError {
    /// A plain message.
    Message(String),
    Brain(BrainError),
}

/// What contracts say about a [`PrepareError`].
pub enum PrepareErrorView {
    Message(Seq<char>),
    Brain(ErrorView),
}

impl View for PrepareError {
    type V = PrepareErrorView;

    open spec fn view(&self) -> PrepareErrorView {
        match self {
            PrepareError::Message(text) => PrepareErrorView::Message(text@),
            PrepareError::Brain(error) => PrepareErrorView::Brain(error@),
        }
    }
}

impl PrepareError {
    /// An error that is a plain message.
    pub fn message(text: &str) -> (error: PrepareError)
        ensures
            error@ == PrepareErrorView::Message(text@),
    {
        PrepareError::Message(text.to_owned())
    }

    /// A second copy of the same error.
    pub fn duplicate(&self) -> (copy: PrepareError)
        ensures
            copy@ == self@,
    {
        match self {
            PrepareError::Message(text) => PrepareError::Message(text.clone()),
            PrepareError::Brain(error) => PrepareError::Brain(error.duplicate()),
        }
    }
}

/// What contracts say about a preparation that may fail.
pub open spec fn prepared<T: View>(result: Result<T, PrepareError>) -> Result<
    T::V,
    PrepareErrorView,
> {
    match result {
        Ok(value) => Ok(value@),
        Err(error) => Err(error@),
    }
}

/// The strategy of a named backend.
pub open spec fn backend_outcome(name: Seq<char>) -> Result<MaterializationStrategy, ErrorView> {
    if name == "dense"@ {
        Ok(MaterializationStrategy::DenseDelta)
    } else if name == "sparse"@ {
        Ok(MaterializationStrategy::SparseDelta)
    } else {
        Err(ErrorView::Invalid("prepare_backend_invalid"@))
    }
}

/// The strategy of a named backend.
pub fn parse_backend(value: &str) -> (backend: BrainResult<MaterializationStrategy>)
    ensures
        outcome(backend) == backend_outcome(value@),
{
    proof {
        reveal_strlit("dense");
        reveal_strlit("sparse");
    }
    if text_eq(value, "dense") {
        Ok(MaterializationStrategy::DenseDelta)
    } else if text_eq(value, "sparse") {
        Ok(MaterializationStrategy::SparseDelta)
    } else {
        Err(BrainError::invalid("prepare_backend_invalid"))
    }
}

/// The other of the two backends that a run compares.
pub open spec fn alternative_outcome(backend: MaterializationStrategy) -> Result<
    MaterializationStrategy,
    PrepareErrorView,
> {
    match backend {
        MaterializationStrategy::DenseDelta => Ok(MaterializationStrategy::SparseDelta),
        MaterializationStrategy::SparseDelta => Ok(MaterializationStrategy::DenseDelta),
        _ => Err(PrepareErrorView::Message("prepare backend unsupported"@)),
    }
}

/// The other of the two backends that a run compares.
pub fn alternative_backend(backend: MaterializationStrategy) -> (alternative: Result<
    MaterializationStrategy,
    PrepareError,
>)
    ensures
        prepared(alternative) == alternative_outcome(backend),
{
    match backend {
        MaterializationStrategy::DenseDelta => Ok(MaterializationStrategy::SparseDelta),
        MaterializationStrategy::SparseDelta => Ok(MaterializationStrategy::DenseDelta),
        _ => Err(PrepareError::message("prepare backend unsupported")),
    }
}

/// The engines that can materialise a candidate for the laboratory.
#[derive(Debug, Clone, Copy, PartialEq, Eq, Structural)]
pub enum Materializer {
    Dense,
    Sparse,
}

impl View for Materializer {
    type V = Materializer;

    open spec fn view(&self) -> Materializer {
        *self
    }
}

/// The engine that materialises a candidate of the given strategy.
pub fn materializer_for(backend: MaterializationStrategy) -> (materializer: Result<
    Materializer,
    PrepareError,
>)
    ensures
        prepared(materializer) == (match backend {
            MaterializationStrategy::DenseDelta => Ok(Materializer::Dense),
            MaterializationStrategy::SparseDelta => Ok(Materializer::Sparse),
            _ => Err(PrepareErrorView::Message("materialization backend unsupported"@)),
        }),
{
    match backend {
        MaterializationStrategy::DenseDelta => Ok(Materializer::Dense),
        MaterializationStrategy::SparseDelta => Ok(Materializer::Sparse),
        _ => Err(PrepareError::message("materialization backend unsupported")),
    }
}

/// Whether arguments ask for a suite rather than for a single run.
pub fn asks_for_suite(args: &Vec<String>) -> (suite: bool)
    ensures
        suite == (args@.len() > 0 && views(args@)[0] == "suite"@),
{
    if args.len() == 0 {
        return false;
    }
    assert(views(args@)[0] == args@[0]@);
    text_eq(args[0].as_str(), "suite")
}

/// The arguments of a run.
#[derive(Debug)]
pub struct RunConfig {
    pub model_root: String,
    pub tensor_id: TensorId,
    pub backend: MaterializationStrategy,
    pub output_dir: String,
    pub capability_id: String,
    pub seed: u64,
}

/// The model of a [`RunConfig`].
pub struct RunModel {
    pub model_root: Seq<char>,
    pub tensor_id: Seq<char>,
    pub backend: MaterializationStrategy,
    pub output_dir: Seq<char>,
    pub capability_id: Seq<char>,
    pub seed: u64,
}

impl View for RunConfig {
    type V = RunModel;

    open spec fn view(&self) -> RunModel {
        RunModel {
            model_root: self.model_root@,
            tensor_id: self.tensor_id@,
            backend: self.backend,
            output_dir: self.output_dir@,
            capability_id: self.capability_id@,
            seed: self.seed,
        }
    }
}

/// How a run is called.
pub open spec fn run_usage() -> Seq<char> {
    "usage: prepare-universal-lab-run <model-root> <tensor-id> <dense|sparse> <output-dir> [capability-id] [seed]"@
}

/// The configuration that arguments stand for, given the outcome of reading the
/// second one as a tensor identity.
pub open spec fn run_outcome(
    args: Seq<Seq<char>>,
    tensor_id: Result<Seq<char>, ErrorView>,
) -> Result<RunModel, PrepareErrorView> {
    if !(4 <= args.len() <= 6) {
        Err(PrepareErrorView::Message(run_usage()))
    } else if args.len() == 6 && numeral_u64(args[5]) is None {
        Err(PrepareErrorView::Message("prepare_seed_invalid"@))
    } else {
        match (tensor_id, backend_outcome(args[2])) {
            (Err(error), _) => Err(PrepareErrorView::Brain(error)),
            (_, Err(error)) => Err(PrepareErrorView::Brain(error)),
            (Ok(tensor_id), Ok(backend)) => Ok(
                RunModel {
                    model_root: args[0],
                    tensor_id,
                    backend,
                    output_dir: args[3],
                    capability_id: if args.len() >= 5 {
                        args[4]
                    } else {
                        "state.toggle:v1"@
                    },
                    seed: if args.len() == 6 {
                        numeral_u64(args[5])->0
                    } else {
                        0
                    },
                },
            ),
        }
    }
}

impl RunConfig {
    /// Reads the arguments of a run.
    pub fn parse(args: &Vec<String>, tensor_id: BrainResult<TensorId>) -> (config: Result<
        RunConfig,
        PrepareError,
    >)
        ensures
            prepared(config) == run_outcome(views(args@), outcome(tensor_id)),
    {
        let ghost models = views(args@);
        if args.len() < 4 || args.len() > 6 {
            return Err(
                PrepareError::message(
                    "usage: prepare-universal-lab-run <model-root> <tensor-id> <dense|sparse> <output-dir> [capability-id] [seed]",
                ),
            );
        }
        assert(models[0] == args@[0]@ && models[2] == args@[2]@ && models[3] == args@[3]@);
        let mut seed: u64 = 0;
        if args.len() == 6 {
            assert(models[5] == args@[5]@);
            match parse_u64(&chars_of(args[5].as_str())) {
                Some(value) => {
                    seed = value;
                },
                None => {
                    return Err(PrepareError::message("prepare_seed_invalid"));
                },
            }
        }
        let tensor_id = match tensor_id {
            Ok(id) => id,
            Err(error) => {
                return Err(PrepareError::Brain(error));
            },
        };
        let backend = match parse_backend(args[2].as_str()) {
            Ok(backend) => backend,
            Err(error) => {
                return Err(PrepareError::Brain(error));
            },
        };
        let capability_id = if args.len() >= 5 {
            assert(models[4] == args@[4]@);
            args[4].clone()
        } else {
            "state.toggle:v1".to_owned()
        };
        Ok(
            RunConfig {
                model_root: args[0].clone(),
                tensor_id,
                backend,
                output_dir: args[3].clone(),
                capability_id,
                seed,
            },
        )
    }
}

/// A pair of anchor states that an operator connects.
#[derive(Debug, Clone, Copy)]
pub struct Transition {
    pub source: &'static str,
    pub target: &'static str,
}

/// The model of a [`Transition`].
pub struct TransitionModel {
    pub source: Seq<char>,
    pub target: Seq<char>,
}

impl View for Transition {
    type V = TransitionModel;

    open spec fn view(&self) -> TransitionModel {
        TransitionModel { source: self.source@, target: self.target@ }
    }
}

/// The operators that the laboratory knows.
#[derive(Debug, Clone, Copy, PartialEq, Eq, Structural)]
pub enum FiniteOperator {
    Toggle,
    Identity,
    Reset0,
    Reset1,
    Negate,
}

impl FiniteOperator {
    /// The identity of the capability that an operator realises.
    pub open spec fn capability_text(self) -> Seq<char> {
        match self {
            FiniteOperator::Toggle => "state.toggle:v1"@,
            FiniteOperator::Identity => "state.identity:v1"@,
            FiniteOperator::Reset0 => "state.reset0:v1"@,
            FiniteOperator::Reset1 => "state.reset1:v1"@,
            FiniteOperator::Negate => "state.negate:v1"@,
        }
    }

    /// The name of an operator.
    pub open spec fn operator_text(self) -> Seq<char> {
        match self {
            FiniteOperator::Toggle => "toggle"@,
            FiniteOperator::Identity => "identity"@,
            FiniteOperator::Reset0 => "reset0"@,
            FiniteOperator::Reset1 => "reset1"@,
            FiniteOperator::Negate => "negate"@,
        }
    }

    /// The states that an operator leads to, from `s0` and from `s1`.
    pub open spec fn target_texts(self) -> (Seq<char>, Seq<char>) {
        match self {
            FiniteOperator::Toggle => ("s1"@, "s0"@),
            FiniteOperator::Identity => ("s0"@, "s1"@),
            FiniteOperator::Reset0 => ("s0"@, "s0"@),
            FiniteOperator::Reset1 => ("s1"@, "s1"@),
            FiniteOperator::Negate => ("n0"@, "n1"@),
        }
    }

    /// The pairs of states that an operator connects.
    pub open spec fn transition_models(self) -> Seq<TransitionModel> {
        seq![
            TransitionModel { source: "s0"@, target: self.target_texts().0 },
            TransitionModel { source: "s1"@, target: self.target_texts().1 },
        ]
    }

    /// The signature of an operator: the states that it leads to, one after the
    /// other.
    pub open spec fn signature(self) -> Seq<Scalar> {
        anchor_values(self.target_texts().0) + anchor_values(self.target_texts().1)
    }

    /// The name of an operator.
    pub fn operator_id(self) -> (name: &'static str)
        ensures
            name@ == self.operator_text(),
    {
        match self {
            FiniteOperator::Toggle => "toggle",
            FiniteOperator::Identity => "identity",
            FiniteOperator::Reset0 => "reset0",
            FiniteOperator::Reset1 => "reset1",
            FiniteOperator::Negate => "negate",
        }
    }

    /// The states that an operator leads to.
    fn targets(self) -> (targets: (&'static str, &'static str))
        ensures
            targets.0@ == self.target_texts().0,
            targets.1@ == self.target_texts().1,
    {
        match self {
            FiniteOperator::Toggle => ("s1", "s0"),
            FiniteOperator::Identity => ("s0", "s1"),
            FiniteOperator::Reset0 => ("s0", "s0"),
            FiniteOperator::Reset1 => ("s1", "s1"),
            FiniteOperator::Negate => ("n0", "n1"),
        }
    }

    /// The pairs of states that an operator connects, in ascending order.
    pub fn transitions(self) -> (transitions: Vec<Transition>)
        ensures
            views(transitions@) == self.transition_models(),
    {
        let (first, second) = self.targets();
        let transitions = vec![
            Transition { source: "s0", target: first },
            Transition { source: "s1", target: second },
        ];
        assert(views(transitions@) =~= self.transition_models());
        transitions
    }

    /// The signature of an operator.
    pub fn target_signature(self) -> (signature: Vec<Scalar>)
        ensures
            signature@ == self.signature(),
    {
        let (first, second) = self.targets();
        let mut signature = anchor_state(first);
        let mut rest = anchor_state(second);
        signature.append(&mut rest);
        signature
    }
}

/// The coordinates of an anchor state.
pub open spec fn anchor_values(anchor: Seq<char>) -> Seq<Scalar> {
    let zero = Scalar { bits: 0 };
    let one = Scalar { bits: ONE_BITS };
    let minus_one = Scalar { bits: (SIGN_BIT + ONE_BITS) as u64 };
    if anchor == "n0"@ {
        seq![minus_one, zero]
    } else if anchor == "n1"@ {
        seq![zero, minus_one]
    } else if anchor == "s0"@ {
        seq![one, zero]
    } else if anchor == "s1"@ {
        seq![zero, one]
    } else {
        seq![zero, zero]
    }
}

/// The coordinates of an anchor state.
pub fn anchor_state(anchor: &str) -> (state: Vec<Scalar>)
    ensures
        state@ == anchor_values(anchor@),
{
    let zero = Scalar { bits: 0 };
    let one = Scalar { bits: ONE_BITS };
    let minus_one = Scalar { bits: SIGN_BIT + ONE_BITS };
    let state = if text_eq(anchor, "n0") {
        vec![minus_one, zero]
    } else if text_eq(anchor, "n1") {
        vec![zero, minus_one]
    } else if text_eq(anchor, "s0") {
        vec![one, zero]
    } else if text_eq(anchor, "s1") {
        vec![zero, one]
    } else {
        vec![zero, zero]
    };
    assert(state@ =~= anchor_values(anchor@));
    state
}

/// A capability of the laboratory.
#[derive(Debug)]
pub struct CapabilitySpec {
    pub id: CapabilityId,
    pub operator: FiniteOperator,
}

/// The model of a [`CapabilitySpec`].
pub struct SpecModel {
    pub id: Seq<char>,
    pub operator: FiniteOperator,
}

impl View for CapabilitySpec {
    type V = SpecModel;

    open spec fn view(&self) -> SpecModel {
        SpecModel { id: self.id@, operator: self.operator }
    }
}

proof fn lemma_capability_texts()
    ensures
        forall|a: FiniteOperator, b: FiniteOperator| #[trigger]
            a.capability_text() == #[trigger] b.capability_text() ==> a == b,
{
    reveal_strlit("state.toggle:v1");
    reveal_strlit("state.identity:v1");
    reveal_strlit("state.reset0:v1");
    reveal_strlit("state.reset1:v1");
    reveal_strlit("state.negate:v1");
    assert forall|a: FiniteOperator, b: FiniteOperator| #[trigger]
        a.capability_text() == #[trigger] b.capability_text() implies a == b by {
        assert(a.capability_text().len() == b.capability_text().len());
        assert(a.capability_text()[6] == b.capability_text()[6]);
        assert(a.capability_text()[11] == b.capability_text()[11]);
    }
}

/// No two operators realise the same capability.
pub proof fn capability_names_are_unambiguous(a: FiniteOperator, b: FiniteOperator)
    ensures
        a.capability_text() == b.capability_text() ==> a == b,
{
    lemma_capability_texts();
}

/// The capability of the given identity.
pub open spec fn capability_outcome(id: Result<Seq<char>, ErrorView>) -> Result<
    SpecModel,
    ErrorView,
> {
    match id {
        Err(error) => Err(error),
        Ok(id) => if exists|o: FiniteOperator| #[trigger] o.capability_text() == id {
            Ok(
                SpecModel {
                    id,
                    operator: choose|o: FiniteOperator| #[trigger] o.capability_text() == id,
                },
            )
        } else {
            Err(ErrorView::Invalid("prepare_capability_unknown"@))
        },
    }
}

impl CapabilitySpec {
    /// The capability of the given identity, given the outcome of reading it.
    pub fn parse(id: BrainResult<CapabilityId>) -> (capability: BrainResult<CapabilitySpec>)
        ensures
            outcome(capability) == capability_outcome(outcome(id)),
    {
        let id = match id {
            Ok(id) => id,
            Err(error) => {
                return Err(error);
            },
        };
        proof {
            lemma_capability_texts();
        }
        let name = id.as_str();
        let operator = if text_eq(name, "state.toggle:v1") {
            FiniteOperator::Toggle
        } else if text_eq(name, "state.identity:v1") {
            FiniteOperator::Identity
        } else if text_eq(name, "state.reset0:v1") {
            FiniteOperator::Reset0
        } else if text_eq(name, "state.reset1:v1") {
            FiniteOperator::Reset1
        } else if text_eq(name, "state.negate:v1") {
            FiniteOperator::Negate
        } else {
            return Err(BrainError::invalid("prepare_capability_unknown"));
        };
        assert(operator.capability_text() == id@);
        Ok(CapabilitySpec { id, operator })
    }

    /// The signature of the capability.
    pub fn target_signature(&self) -> (signature: Vec<Scalar>)
        ensures
            signature@ == self@.operator.signature(),
    {
        self.operator.target_signature()
    }
}

/// The operators that stand in for a wrong one: the first three others.
pub open spec fn wrong_operators(operator: FiniteOperator) -> Seq<FiniteOperator> {
    match operator {
        FiniteOperator::Toggle => seq![
            FiniteOperator::Identity,
            FiniteOperator::Reset0,
            FiniteOperator::Reset1,
        ],
        FiniteOperator::Identity => seq![
            FiniteOperator::Toggle,
            FiniteOperator::Reset0,
            FiniteOperator::Reset1,
        ],
        FiniteOperator::Reset0 => seq![
            FiniteOperator::Toggle,
            FiniteOperator::Identity,
            FiniteOperator::Reset1,
        ],
        FiniteOperator::Reset1 | FiniteOperator::Negate => seq![
            FiniteOperator::Toggle,
            FiniteOperator::Identity,
            FiniteOperator::Reset0,
        ],
    }
}

/// The signatures of the operators that stand in for a wrong one.
pub fn wrong_signatures(capability: &CapabilitySpec) -> (signatures: Vec<Vec<Scalar>>)
    ensures
        views(signatures@) == wrong_operators(capability@.operator).map_values(
            |o: FiniteOperator| o.signature(),
        ),
{
    let (first, second, third) = match capability.operator {
        FiniteOperator::Toggle => (
            FiniteOperator::Identity,
            FiniteOperator::Reset0,
            FiniteOperator::Reset1,
        ),
        FiniteOperator::Identity => (
            FiniteOperator::Toggle,
            FiniteOperator::Reset0,
            FiniteOperator::Reset1,
        ),
        FiniteOperator::Reset0 => (
            FiniteOperator::Toggle,
            FiniteOperator::Identity,
            FiniteOperator::Reset1,
        ),
        FiniteOperator::Reset1 | FiniteOperator::Negate => (
            FiniteOperator::Toggle,
            FiniteOperator::Identity,
            FiniteOperator::Reset0,
        ),
    };
    let signatures = vec![
        first.target_signature(),
        second.target_signature(),
        third.target_signature(),
    ];
    assert(views(signatures@) =~= wrong_operators(capability@.operator).map_values(
        |o: FiniteOperator| o.signature(),
    ));
    signatures
}

/// No wrong signature is that of the capability itself.
pub proof fn wrong_signatures_are_wrong(operator: FiniteOperator, i: int)
    requires
        0 <= i < wrong_operators(operator).len(),
    ensures
        wrong_operators(operator)[i] != operator,
        wrong_operators(operator)[i].signature() != operator.signature(),
{
    reveal_strlit("n0");
    reveal_strlit("n1");
    reveal_strlit("s0");
    reveal_strlit("s1");
    let wrong = wrong_operators(operator)[i];
    assert("n0"@[0] != "s0"@[0] && "n0"@[0] != "s1"@[0] && "n0"@[1] != "n1"@[1]);
    assert("n1"@[0] != "s0"@[0] && "n1"@[0] != "s1"@[0] && "s0"@[1] != "s1"@[1]);
    let a = operator.signature();
    let b = wrong.signature();
    assert(a.len() == 4 && b.len() == 4);
    assert(a[0] != b[0] || a[1] != b[1] || a[2] != b[2] || a[3] != b[3]);
}

/// The non-empty items of a list that is separated by commas, without the space
/// around them.
pub open spec fn listed_items(parts: Seq<Seq<char>>) -> Seq<Seq<char>>
    decreases parts.len(),
{
    if parts.len() == 0 {
        Seq::empty()
    } else {
        let item = trimmed(parts.last(), Margin::WhiteSpace);
        if item.len() == 0 {
            listed_items(parts.drop_last())
        } else {
            listed_items(parts.drop_last()).push(item)
        }
    }
}

/// The non-empty items of a list that is separated by commas.
pub fn list_items(configured: &str) -> (items: Vec<String>)
    ensures
        views(items@) == listed_items(split_on(configured@, ',')),
{
    let parts = split(&chars_of(configured), ',');
    let ghost models = pieces(parts@);
    let mut items: Vec<String> = Vec::new();
    assert(models.take(0) == Seq::<Seq<char>>::empty());
    assert(views(items@) =~= Seq::empty());
    for i in 0..parts.len()
        invariant
            models == pieces(parts@),
            views(items@) == listed_items(models.take(i as int)),
    {
        assert(models.take(i + 1).drop_last() == models.take(i as int));
        assert(models.take(i + 1).last() == parts@[i as int]@);
        let item = trim(&parts[i], Margin::WhiteSpace);
        if item.len() > 0 {
            items.push(text_of(&item));
        }
    }
    assert(models.take(models.len() as int) == models);
    items
}

/// The names of the capabilities of a suite, as configured or by default.
pub open spec fn suite_names(configured: Option<Seq<char>>) -> Seq<Seq<char>> {
    let list = match configured {
        Some(text) => text,
        None =>
            "state.identity:v1,state.toggle:v1,state.reset0:v1,state.reset1:v1,state.negate:v1"@,
    };
    listed_items(split_on(list, ','))
}

/// The view of an optional text.
pub open spec fn optional_text(text: Option<&str>) -> Option<Seq<char>> {
    match text {
        Some(text) => Some(text@),
        None => None,
    }
}

/// The names of the capabilities of a suite.
pub fn suite_capability_names(configured: Option<&str>) -> (names: Vec<String>)
    ensures
        views(names@) == suite_names(optional_text(configured)),
{
    match configured {
        Some(text) => list_items(text),
        None => list_items(
            "state.identity:v1,state.toggle:v1,state.reset0:v1,state.reset1:v1,state.negate:v1",
        ),
    }
}

/// Some capability of a suite has the given identity.
pub open spec fn suite_has(suite: Seq<SpecModel>, id: Seq<char>) -> bool {
    exists|i: int| 0 <= i < suite.len() && (#[trigger] suite[i]).id == id
}

/// The capabilities of a suite, each once.
pub open spec fn suite_listed(ids: Seq<Result<Seq<char>, ErrorView>>) -> Result<
    Seq<SpecModel>,
    ErrorView,
>
    decreases ids.len(),
{
    if ids.len() == 0 {
        Ok(Seq::empty())
    } else {
        match suite_listed(ids.drop_last()) {
            Err(error) => Err(error),
            Ok(front) => match capability_outcome(ids.last()) {
                Err(error) => Err(error),
                Ok(capability) => if suite_has(front, capability.id) {
                    Err(ErrorView::Invalid("suite_capability_duplicate"@))
                } else {
                    Ok(front.push(capability))
                },
            },
        }
    }
}

/// The capabilities of a suite: known, each once, the identity among them.
pub open spec fn suite_outcome(ids: Seq<Result<Seq<char>, ErrorView>>) -> Result<
    Seq<SpecModel>,
    ErrorView,
> {
    match suite_listed(ids) {
        Err(error) => Err(error),
        Ok(suite) => if suite_has(suite, "state.identity:v1"@) {
            Ok(suite)
        } else {
            Err(ErrorView::Invalid("suite_requires_identity_calibration_capability"@))
        },
    }
}

/// What contracts say about a suite that may be refused.
pub open spec fn suite_result(suite: BrainResult<Vec<CapabilitySpec>>) -> Result<
    Seq<SpecModel>,
    ErrorView,
> {
    match suite {
        Ok(list) => Ok(views(list@)),
        Err(error) => Err(error@),
    }
}

proof fn lemma_refused_suite_persists(ids: Seq<Result<Seq<char>, ErrorView>>, n: int)
    requires
        0 <= n <= ids.len(),
        suite_listed(ids.take(n)) is Err,
    ensures
        suite_listed(ids) == suite_listed(ids.take(n)),
    decreases ids.len() - n,
{
    if n == ids.len() {
        assert(ids.take(n) == ids);
    } else {
        assert(ids.take(n + 1).drop_last() == ids.take(n));
        lemma_refused_suite_persists(ids, n + 1);
    }
}

/// Whether some capability of a suite has the given identity.
fn suite_contains(suite: &Vec<CapabilitySpec>, id: &str) -> (found: bool)
    ensures
        found == suite_has(views(suite@), id@),
{
    let ghost models = views(suite@);
    for i in 0..suite.len()
        invariant
            models == views(suite@),
            forall|j: int| 0 <= j < i ==> (#[trigger] models[j]).id != id@,
    {
        assert(models[i as int] == suite@[i as int]@);
        if text_eq(suite[i].id.as_str(), id) {
            return true;
        }
    }
    false
}

/// A copy of the outcome of reading a capability identity.
fn id_copy(id: &BrainResult<CapabilityId>) -> (copy: BrainResult<CapabilityId>)
    ensures
        outcome(copy) == outcome(*id),
{
    match id {
        Ok(id) => Ok(id.clone()),
        Err(error) => Err(error.duplicate()),
    }
}

/// Reads the capabilities of a suite, given the outcome of reading each name as
/// an identity.
pub fn suite_capabilities(ids: &Vec<BrainResult<CapabilityId>>) -> (suite: BrainResult<
    Vec<CapabilitySpec>,
>)
    ensures
        suite_result(suite) == suite_outcome(outcomes(ids@)),
{
    let ghost models = outcomes(ids@);
    let mut suite: Vec<CapabilitySpec> = Vec::new();
    assert(models.take(0) == Seq::<Result<Seq<char>, ErrorView>>::empty());
    assert(views(suite@) =~= Seq::empty());
    for i in 0..ids.len()
        invariant
            models == outcomes(ids@),
            suite_listed(models.take(i as int)) == Ok::<_, ErrorView>(views(suite@)),
    {
        assert(models.take(i + 1).drop_last() == models.take(i as int));
        assert(models.take(i + 1).last() == outcome(ids@[i as int]));
        let capability = match CapabilitySpec::parse(id_copy(&ids[i])) {
            Ok(capability) => capability,
            Err(error) => {
                proof {
                    lemma_refused_suite_persists(models, i + 1);
                }
                return Err(error);
            },
        };
        if suite_contains(&suite, capability.id.as_str()) {
            proof {
                lemma_refused_suite_persists(models, i + 1);
            }
            return Err(BrainError::invalid("suite_capability_duplicate"));
        }
        suite.push(capability);
    }
    assert(models.take(models.len() as int) == models);
    if !suite_contains(&suite, "state.identity:v1") {
        return Err(BrainError::invalid("suite_requires_identity_calibration_capability"));
    }
    Ok(suite)
}

/// The seeds that the items of a list denote, each once.
pub open spec fn seeds_listed(items: Seq<Seq<char>>) -> Result<Seq<u64>, PrepareErrorView>
    decreases items.len(),
{
    if items.len() == 0 {
        Ok(Seq::empty())
    } else {
        match seeds_listed(items.drop_last()) {
            Err(error) => Err(error),
            Ok(front) => match numeral_u64(items.last()) {
                None => Err(PrepareErrorView::Message("suite_seed_invalid"@)),
                Some(seed) => if front.contains(seed) {
                    Err(PrepareErrorView::Message("suite_seed_duplicate"@))
                } else {
                    Ok(front.push(seed))
                },
            },
        }
    }
}

/// The seeds of a suite, as configured or by default.
pub open spec fn seeds_outcome(configured: Option<Seq<char>>) -> Result<Seq<u64>, PrepareErrorView> {
    let list = match configured {
        Some(text) => text,
        None => "0,1,2"@,
    };
    match seeds_listed(listed_items(split_on(list, ','))) {
        Err(error) => Err(error),
        Ok(seeds) => if seeds.len() == 0 {
            Err(PrepareErrorView::Message("suite_seed_set_empty"@))
        } else {
            Ok(seeds)
        },
    }
}

proof fn lemma_refused_seeds_persist(items: Seq<Seq<char>>, n: int)
    requires
        0 <= n <= items.len(),
        seeds_listed(items.take(n)) is Err,
    ensures
        seeds_listed(items) == seeds_listed(items.take(n)),
    decreases items.len() - n,
{
    if n == items.len() {
        assert(items.take(n) == items);
    } else {
        assert(items.take(n + 1).drop_last() == items.take(n));
        lemma_refused_seeds_persist(items, n + 1);
    }
}

/// Whether a seed was listed before.
fn seed_listed(seeds: &Vec<u64>, seed: u64) -> (found: bool)
    ensures
        found == seeds@.contains(seed),
{
    for i in 0..seeds.len()
        invariant
            forall|j: int| 0 <= j < i ==> seeds@[j] != seed,
    {
        if seeds[i] == seed {
            return true;
        }
    }
    false
}

/// Reads the seeds of a suite.
pub fn suite_seeds(configured: Option<&str>) -> (seeds: Result<Vec<u64>, PrepareError>)
    ensures
        prepared(seeds) == seeds_outcome(optional_text(configured)),
{
    let items = match configured {
        Some(text) => list_items(text),
        None => list_items("0,1,2"),
    };
    let ghost models = views(items@);
    let mut seeds: Vec<u64> = Vec::new();
    assert(models.take(0) == Seq::<Seq<char>>::empty());
    assert(seeds@ =~= Seq::empty());
    for i in 0..items.len()
        invariant
            models == views(items@),
            seeds_listed(models.take(i as int)) == Ok::<_, PrepareErrorView>(seeds@),
            models == listed_items(
                split_on(
                    (match optional_text(configured) {
                        Some(text) => text,
                        None => "0,1,2"@,
                    }),
                    ',',
                ),
            ),
    {
        assert(models.take(i + 1).drop_last() == models.take(i as int));
        assert(models.take(i + 1).last() == items@[i as int]@);
        match parse_u64(&chars_of(items[i].as_str())) {
            None => {
                proof {
                    lemma_refused_seeds_persist(models, i + 1);
                }
                return Err(PrepareError::message("suite_seed_invalid"));
            },
            Some(seed) => {
                if seed_listed(&seeds, seed) {
                    proof {
                        lemma_refused_seeds_persist(models, i + 1);
                    }
                    return Err(PrepareError::message("suite_seed_duplicate"));
                }
                seeds.push(seed);
            },
        }
    }
    assert(models.take(models.len() as int) == models);
    if seeds.len() == 0 {
        return Err(PrepareError::message("suite_seed_set_empty"));
    }
    Ok(seeds)
}

/// An accepted suite knows every capability of it once, and the identity is
/// among them.
pub proof fn accepted_suites_have_no_duplicates(ids: Seq<Result<Seq<char>, ErrorView>>)
    ensures
        suite_outcome(ids) matches Ok(suite) ==> {
            &&& suite.len() == ids.len()
            &&& suite_has(suite, "state.identity:v1"@)
            &&& forall|i: int, j: int|
                0 <= i < j < suite.len() ==> (#[trigger] suite[i]).id != (#[trigger] suite[j]).id
        },
{
    lemma_suite_distinct(ids);
}

proof fn lemma_suite_distinct(ids: Seq<Result<Seq<char>, ErrorView>>)
    ensures
        suite_listed(ids) matches Ok(suite) ==> {
            &&& suite.len() == ids.len()
            &&& forall|i: int, j: int|
                0 <= i < j < suite.len() ==> (#[trigger] suite[i]).id != (#[trigger] suite[j]).id
        },
    decreases ids.len(),
{
    if ids.len() > 0 {
        lemma_suite_distinct(ids.drop_last());
    }
}

/// Accepted seeds are never repeated and never missing.
pub proof fn accepted_seeds_have_no_duplicates(configured: Option<Seq<char>>)
    ensures
        seeds_outcome(configured) matches Ok(seeds) ==> seeds.len() > 0 && seeds.no_duplicates(),
{
    let list = match configured {
        Some(text) => text,
        None => "0,1,2"@,
    };
    lemma_seeds_distinct(listed_items(split_on(list, ',')));
}

proof fn lemma_seeds_distinct(items: Seq<Seq<char>>)
    ensures
        seeds_listed(items) matches Ok(seeds) ==> seeds.no_duplicates(),
    decreases items.len(),
{
    if items.len() > 0 {
        lemma_seeds_distinct(items.drop_last());
    }
}

/// The pattern of -1.1.
pub const MINUS_ELEVEN_TENTHS: u64 = 0xBFF1_9999_9999_999A;

/// The pattern of -0.8.
pub const MINUS_FOUR_FIFTHS: u64 = 0xBFE9_9999_9999_999A;

/// The pattern of -0.7.
pub const MINUS_SEVEN_TENTHS: u64 = 0xBFE6_6666_6666_6666;

/// The pattern of -0.2.
pub const MINUS_ONE_FIFTH: u64 = 0xBFC9_9999_9999_999A;

/// The pattern of 0.0.
pub const ZERO: u64 = 0x0000_0000_0000_0000;

/// The pattern of 0.1.
pub const ONE_TENTH: u64 = 0x3FB9_9999_9999_999A;

/// The pattern of 0.2.
pub const ONE_FIFTH: u64 = 0x3FC9_9999_9999_999A;

/// The pattern of 0.3.
pub const THREE_TENTHS: u64 = 0x3FD3_3333_3333_3333;

/// The pattern of 0.4.
pub const TWO_FIFTHS: u64 = 0x3FD9_9999_9999_999A;

/// The pattern of 0.5.
pub const HALF: u64 = 0x3FE0_0000_0000_0000;

/// The pattern of 0.8.
pub const FOUR_FIFTHS: u64 = 0x3FE9_9999_9999_999A;

/// The pattern of 0.9.
pub const NINE_TENTHS: u64 = 0x3FEC_CCCC_CCCC_CCCD;

/// The pattern of 1.2.
pub const SIX_FIFTHS: u64 = 0x3FF3_3333_3333_3333;

/// Four numbers by their patterns.
pub open spec fn quad(a: u64, b: u64, c: u64, d: u64) -> Seq<Scalar> {
    seq![Scalar { bits: a }, Scalar { bits: b }, Scalar { bits: c }, Scalar { bits: d }]
}

fn row_of(a: u64, b: u64, c: u64, d: u64) -> (row: Vec<Scalar>)
    ensures
        row@ == quad(a, b, c, d),
{
    let row = vec![Scalar { bits: a }, Scalar { bits: b }, Scalar { bits: c }, Scalar { bits: d }];
    assert(row@ =~= quad(a, b, c, d));
    row
}

/// The signatures that a calibration draws on, before they are varied by a seed.
pub open spec fn calibration_table() -> Seq<Seq<Scalar>> {
    seq![
        quad(ONE_BITS, ZERO, ZERO, ONE_BITS),
        quad(ONE_BITS, ZERO, ONE_BITS, ZERO),
        quad(ZERO, ONE_BITS, ZERO, ONE_BITS),
        quad(ONE_BITS, ONE_BITS, ZERO, ZERO),
        quad(ZERO, ZERO, ONE_BITS, ONE_BITS),
        quad(ONE_BITS, HALF, HALF, ONE_BITS),
        quad(ONE_FIFTH, ONE_BITS, ONE_BITS, ONE_FIFTH),
        quad(SIX_FIFTHS, MINUS_ONE_FIFTH, TWO_FIFTHS, FOUR_FIFTHS),
        quad(MINUS_FOUR_FIFTHS, ONE_TENTH, ONE_FIFTH, MINUS_ELEVEN_TENTHS),
        quad(THREE_TENTHS, MINUS_SEVEN_TENTHS, NINE_TENTHS, TWO_FIFTHS),
    ]
}

/// The signatures that a calibration draws on.
pub fn calibration_candidates() -> (rows: Vec<Vec<Scalar>>)
    ensures
        views(rows@) == calibration_table(),
{
    let rows = vec![
        row_of(ONE_BITS, ZERO, ZERO, ONE_BITS),
        row_of(ONE_BITS, ZERO, ONE_BITS, ZERO),
        row_of(ZERO, ONE_BITS, ZERO, ONE_BITS),
        row_of(ONE_BITS, ONE_BITS, ZERO, ZERO),
        row_of(ZERO, ZERO, ONE_BITS, ONE_BITS),
        row_of(ONE_BITS, HALF, HALF, ONE_BITS),
        row_of(ONE_FIFTH, ONE_BITS, ONE_BITS, ONE_FIFTH),
        row_of(SIX_FIFTHS, MINUS_ONE_FIFTH, TWO_FIFTHS, FOUR_FIFTHS),
        row_of(MINUS_FOUR_FIFTHS, ONE_TENTH, ONE_FIFTH, MINUS_ELEVEN_TENTHS),
        row_of(THREE_TENTHS, MINUS_SEVEN_TENTHS, NINE_TENTHS, TWO_FIFTHS),
    ];
    assert(views(rows@) =~= calibration_table());
    rows
}

/// The pattern of ten to the power of minus nine: signatures that differ by no
/// more than this are the same.
pub const CLOSE_BITS: u64 = 0x3E11_2E0B_E826_D695;

/// The largest absolute value among differences, starting from zero.
pub open spec fn largest_difference(differences: Seq<Scalar>) -> Scalar
    decreases differences.len(),
{
    if differences.len() == 0 {
        Scalar { bits: 0 }
    } else {
        largest_difference(differences.drop_last()).greatest(
            Scalar { bits: differences.last().magnitude() as u64 },
        )
    }
}

/// Whether two signatures are close, by their lengths and the differences of
/// their numbers.
pub open spec fn close(left: int, right: int, differences: Seq<Scalar>) -> bool {
    left == right && largest_difference(differences).at_most(Scalar { bits: CLOSE_BITS })
}

/// Whether two signatures are close.
pub fn signatures_close(left: usize, right: usize, differences: &Vec<Scalar>) -> (yes: bool)
    ensures
        yes == close(left as int, right as int, differences@),
{
    let mut largest = Scalar { bits: 0 };
    assert(differences@.take(0) == Seq::<Scalar>::empty());
    for i in 0..differences.len()
        invariant
            largest == largest_difference(differences@.take(i as int)),
    {
        assert(differences@.take(i + 1).drop_last() == differences@.take(i as int));
        largest = largest.max(differences[i].abs());
    }
    assert(differences@.take(differences@.len() as int) == differences@);
    left == right && largest.le(Scalar { bits: CLOSE_BITS })
}

/// The pattern of one hundredth.
pub const SOLUTION_FACTOR_BITS: u64 = 0x3F84_7AE1_47AE_147B;

/// A candidate of a calibration, varied as [`calibration_variations`] states it,
/// with its differences from the target and its hundredth.
#[derive(Debug)]
pub struct VariedSignature {
    pub signature: Vec<Scalar>,
    pub differences: Vec<Scalar>,
    /// Every number of the signature times [`SOLUTION_FACTOR_BITS`].
    pub scaled: Vec<Scalar>,
}

/// The model of a [`VariedSignature`].
pub struct VariedModel {
    pub signature: Seq<Scalar>,
    pub differences: Seq<Scalar>,
    pub scaled: Seq<Scalar>,
}

impl View for VariedSignature {
    type V = VariedModel;

    open spec fn view(&self) -> VariedModel {
        VariedModel {
            signature: self.signature@,
            differences: self.differences@,
            scaled: self.scaled@,
        }
    }
}

/// The variations that a calibration for a target uses, from the first candidates
/// of the table: a candidate that is the target itself is left out whatever its
/// variation, and so is a variation that comes close.
pub open spec fn calibration_used(varied: Seq<VariedModel>, target: Seq<Scalar>) -> Seq<VariedModel>
    decreases varied.len(),
{
    if varied.len() == 0 {
        Seq::empty()
    } else {
        let last = varied.last();
        let rest = calibration_used(varied.drop_last(), target);
        if calibration_table()[varied.len() - 1] == target || close(
            last.signature.len() as int,
            target.len() as int,
            last.differences,
        ) {
            rest
        } else {
            rest.push(last)
        }
    }
}

/// The signatures that a calibration for a target uses.
pub open spec fn calibration_rows(varied: Seq<VariedModel>, target: Seq<Scalar>) -> Seq<
    Seq<Scalar>,
> {
    calibration_used(varied, target).map_values(|one: VariedModel| one.signature)
}

/// The hundredths of the signatures that a calibration for a target uses.
pub open spec fn calibration_scaled(varied: Seq<VariedModel>, target: Seq<Scalar>) -> Seq<
    Seq<Scalar>,
> {
    calibration_used(varied, target).map_values(|one: VariedModel| one.scaled)
}

/// Whether two rows hold the same numbers, by their patterns.
fn same_row(a: &Vec<Scalar>, b: &Vec<Scalar>) -> (same: bool)
    ensures
        same == (a@ == b@),
{
    if a.len() != b.len() {
        return false;
    }
    for i in 0..a.len()
        invariant
            a@.len() == b@.len(),
            forall|j: int| 0 <= j < i ==> a@[j] == b@[j],
    {
        if a[i] != b[i] {
            return false;
        }
    }
    assert(a@ =~= b@);
    true
}

/// What a capability is calibrated with: the signatures, and for each its
/// hundredth.
#[derive(Debug)]
pub struct CalibrationRows {
    pub signatures: Vec<Vec<Scalar>>,
    pub scaled: Vec<Vec<Scalar>>,
}

/// What a capability is calibrated with, from the varied candidates of the table:
/// without the one that is the capability's own signature and without those that
/// come close to it.
pub fn calibration_signatures(capability: &CapabilitySpec, varied: &Vec<VariedSignature>) -> (rows:
    CalibrationRows)
    requires
        varied@.len() == calibration_table().len(),
    ensures
        views(rows.signatures@) == calibration_rows(
            views(varied@),
            capability@.operator.signature(),
        ),
        views(rows.scaled@) == calibration_scaled(views(varied@), capability@.operator.signature()),
{
    let target = capability.target_signature();
    let candidates = calibration_candidates();
    let ghost models = views(varied@);
    let mut signatures: Vec<Vec<Scalar>> = Vec::new();
    let mut scaled: Vec<Vec<Scalar>> = Vec::new();
    assert(models.take(0) == Seq::<VariedModel>::empty());
    assert(views(signatures@) =~= calibration_rows(models.take(0), target@));
    assert(views(scaled@) =~= calibration_scaled(models.take(0), target@));
    for i in 0..varied.len()
        invariant
            models == views(varied@),
            varied@.len() == calibration_table().len(),
            views(candidates@) == calibration_table(),
            views(signatures@) == calibration_rows(models.take(i as int), target@),
            views(scaled@) == calibration_scaled(models.take(i as int), target@),
    {
        let ghost before = calibration_used(models.take(i as int), target@);
        assert(models.take(i + 1).drop_last() == models.take(i as int));
        assert(models.take(i + 1).last() == varied@[i as int]@);
        assert(calibration_table()[i as int] == candidates@[i as int]@);
        let own = same_row(&candidates[i], &target);
        let close = signatures_close(
            varied[i].signature.len(),
            target.len(),
            &varied[i].differences,
        );
        if !own && !close {
            signatures.push(crate::scalar::row_copy(&varied[i].signature));
            scaled.push(crate::scalar::row_copy(&varied[i].scaled));
            assert(views(signatures@) =~= before.push(varied@[i as int]@).map_values(
                |one: VariedModel| one.signature,
            ));
            assert(views(scaled@) =~= before.push(varied@[i as int]@).map_values(
                |one: VariedModel| one.scaled,
            ));
        }
    }
    assert(models.take(models.len() as int) == models);
    CalibrationRows { signatures, scaled }
}

/// A capability is held out of its own calibration: every signature that is used
/// varies a candidate other than the capability's own signature, however small
/// the variation is, and comes with the hundredth of that very variation.
pub proof fn capability_is_held_out_of_its_calibration(
    varied: Seq<VariedModel>,
    target: Seq<Scalar>,
    k: int,
)
    requires
        varied.len() <= calibration_table().len(),
        0 <= k < calibration_rows(varied, target).len(),
    ensures
        calibration_scaled(varied, target).len() == calibration_rows(varied, target).len(),
        exists|i: int|
            0 <= i < varied.len() && #[trigger] calibration_table()[i] != target
                && calibration_rows(varied, target)[k] == varied[i].signature
                && calibration_scaled(varied, target)[k] == varied[i].scaled,
{
    lemma_used_varies_another(varied, target, k);
    let i = choose|i: int|
        0 <= i < varied.len() && #[trigger] calibration_table()[i] != target && calibration_used(
            varied,
            target,
        )[k] == varied[i];
    assert(calibration_table()[i] != target);
}

proof fn lemma_used_varies_another(varied: Seq<VariedModel>, target: Seq<Scalar>, k: int)
    requires
        varied.len() <= calibration_table().len(),
        0 <= k < calibration_used(varied, target).len(),
    ensures
        exists|i: int|
            0 <= i < varied.len() && #[trigger] calibration_table()[i] != target
                && calibration_used(varied, target)[k] == varied[i],
    decreases varied.len(),
{
    if varied.len() > 0 {
        let rest = varied.drop_last();
        if k < calibration_used(rest, target).len() {
            lemma_used_varies_another(rest, target, k);
            let i = choose|i: int|
                0 <= i < rest.len() && #[trigger] calibration_table()[i] != target
                    && calibration_used(rest, target)[k] == rest[i];
            assert(calibration_table()[i] != target && rest[i] == varied[i]);
        } else {
            assert(calibration_table()[varied.len() - 1] != target);
        }
    }
}

/// The step of a variation, from zero to two thousand.
pub open spec fn variation(seed: u64, index: u64, slot: u64) -> int {
    ((seed * 0x9E37_79B9_7F4A_7C15 + index * 0xBF58_476D_1CE4_E5B9 + slot
        * 0x94D0_49BB_1331_11EB) % 0x1_0000_0000_0000_0000) % 2001
}

/// The step by which a seed varies one number of a signature; a thousand is no
/// variation.
pub fn jitter_step(seed: u64, index: u64, slot: u64) -> (step: u64)
    ensures
        step == variation(seed, index, slot),
        step <= 2000,
{
    let a: u64 = seed.wrapping_mul(0x9E37_79B9_7F4A_7C15);
    let b: u64 = index.wrapping_mul(0xBF58_476D_1CE4_E5B9);
    let c: u64 = slot.wrapping_mul(0x94D0_49BB_1331_11EB);
    let mixed: u64 = a.wrapping_add(b).wrapping_add(c);
    proof {
        let m = 0x1_0000_0000_0000_0000int;
        let x = seed * 0x9E37_79B9_7F4A_7C15;
        let y = index * 0xBF58_476D_1CE4_E5B9;
        let z = slot * 0x94D0_49BB_1331_11EB;
        assert(a == x % m && b == y % m && c == z % m);
        lemma_add_mod_noop(x, y, m);
        lemma_add_mod_noop(x + y, z, m);
        assert(mixed == (x + y + z) % m);
    }
    mixed % 2001
}

/// The pattern of one ten-thousandth.
pub const CALIBRATION_SCALE_BITS: u64 = 0x3F1A_36E2_EB1C_432D;

/// How one number of a signature is varied: by the scale, times the step in
/// thousandths less one.
#[derive(Debug, Clone, Copy, PartialEq, Eq, Structural)]
pub struct NumberVariation {
    pub value: Scalar,
    pub step: u64,
    pub scale: Scalar,
}

/// How a seed varies the signature at an index.
pub open spec fn row_variation(
    signature: Seq<Scalar>,
    seed: u64,
    index: u64,
    scale: Scalar,
) -> Seq<NumberVariation> {
    Seq::new(
        signature.len(),
        |slot: int|
            NumberVariation {
                value: signature[slot],
                step: variation(seed, index, slot as u64) as u64,
                scale,
            },
    )
}

/// How a seed varies the signature at an index.
pub fn signature_variation(signature: &Vec<Scalar>, seed: u64, index: u64, scale: Scalar) -> (row:
    Vec<NumberVariation>)
    ensures
        row@ == row_variation(signature@, seed, index, scale),
{
    let mut row: Vec<NumberVariation> = Vec::new();
    for slot in 0..signature.len()
        invariant
            row@ == row_variation(signature@, seed, index, scale).take(slot as int),
    {
        let step: u64 = jitter_step(seed, index, slot as u64);
        row.push(NumberVariation { value: signature[slot], step, scale });
        proof {
            crate::order::take_one_more(
                row_variation(signature@, seed, index, scale),
                slot as int,
            );
        }
    }
    assert(row@ =~= row_variation(signature@, seed, index, scale));
    row
}

/// How a seed varies the candidates of a calibration.
pub fn calibration_variations(seed: u64) -> (rows: Vec<Vec<NumberVariation>>)
    ensures
        views(rows@) == Seq::new(
            calibration_table().len(),
            |index: int|
                row_variation(
                    calibration_table()[index],
                    seed,
                    index as u64,
                    Scalar { bits: CALIBRATION_SCALE_BITS },
                ),
        ),
{
    let candidates = calibration_candidates();
    let scale = Scalar { bits: CALIBRATION_SCALE_BITS };
    let mut rows: Vec<Vec<NumberVariation>> = Vec::new();
    for index in 0..candidates.len()
        invariant
            views(candidates@) == calibration_table(),
            scale == (Scalar { bits: CALIBRATION_SCALE_BITS }),
            rows@.len() == index,
            forall|k: int|
                0 <= k < index ==> (#[trigger] rows@[k])@ == row_variation(
                    calibration_table()[k],
                    seed,
                    k as u64,
                    scale,
                ),
    {
        assert(calibration_table()[index as int] == candidates@[index as int]@);
        rows.push(signature_variation(&candidates[index], seed, index as u64, scale));
    }
    rows
}

/// The arguments of a suite.
#[derive(Debug)]
pub struct SuiteConfig {
    pub backend: MaterializationStrategy,
    pub output_dir: String,
    pub runner: String,
    pub model_roots: Vec<String>,
}

/// The model of a [`SuiteConfig`].
pub struct SuiteModel {
    pub backend: MaterializationStrategy,
    pub output_dir: Seq<char>,
    pub runner: Seq<char>,
    pub model_roots: Seq<Seq<char>>,
}

impl View for SuiteConfig {
    type V = SuiteModel;

    open spec fn view(&self) -> SuiteModel {
        SuiteModel {
            backend: self.backend,
            output_dir: self.output_dir@,
            runner: self.runner@,
            model_roots: views(self.model_roots@),
        }
    }
}

/// How a suite is called.
pub open spec fn suite_usage() -> Seq<char> {
    "usage: prepare-universal-lab-run suite <dense|sparse> <output-dir> <shadow-runner> <model-root>..."@
}

/// The configuration that arguments stand for.
pub open spec fn suite_config_outcome(args: Seq<Seq<char>>) -> Result<SuiteModel, PrepareErrorView> {
    if args.len() < 4 {
        Err(PrepareErrorView::Message(suite_usage()))
    } else {
        match backend_outcome(args[0]) {
            Err(error) => Err(PrepareErrorView::Brain(error)),
            Ok(backend) => Ok(
                SuiteModel {
                    backend,
                    output_dir: args[1],
                    runner: args[2],
                    model_roots: args.skip(3),
                },
            ),
        }
    }
}

impl SuiteConfig {
    /// Reads the arguments of a suite.
    pub fn parse(args: &Vec<String>) -> (config: Result<SuiteConfig, PrepareError>)
        ensures
            prepared(config) == suite_config_outcome(views(args@)),
    {
        let ghost models = views(args@);
        if args.len() < 4 {
            return Err(
                PrepareError::message(
                    "usage: prepare-universal-lab-run suite <dense|sparse> <output-dir> <shadow-runner> <model-root>...",
                ),
            );
        }
        assert(models[0] == args@[0]@ && models[1] == args@[1]@ && models[2] == args@[2]@);
        let backend = match parse_backend(args[0].as_str()) {
            Ok(backend) => backend,
            Err(error) => {
                return Err(PrepareError::Brain(error));
            },
        };
        let ghost roots = models.skip(3);
        let mut model_roots: Vec<String> = Vec::new();
        assert(roots.take(0) =~= views(model_roots@));
        for i in 3..args.len()
            invariant
                models == views(args@),
                roots == models.skip(3),
                views(model_roots@) == roots.take(i - 3),
        {
            model_roots.push(args[i].clone());
            proof {
                take_one_more(roots, i - 3);
                assert(roots[i - 3] == args@[i as int]@);
            }
        }
        assert(roots.take(roots.len() as int) == roots);
        Ok(
            SuiteConfig {
                backend,
                output_dir: args[1].clone(),
                runner: args[2].clone(),
                model_roots,
            },
        )
    }
}

/// How often a name stands in a list.
pub open spec fn occurrences(names: Seq<Seq<char>>, name: Seq<char>) -> int
    decreases names.len(),
{
    if names.len() == 0 {
        0
    } else {
        occurrences(names.drop_last(), name) + (if names.last() == name {
            1int
        } else {
            0
        })
    }
}

/// Whether a table counts the names of a list: every name once, in ascending
/// order, with the number of its occurrences.
pub open spec fn counts(table: Seq<NamedModel<usize>>, names: Seq<Seq<char>>) -> bool {
    &&& strictly_ascending(table)
    &&& forall|i: int|
        0 <= i < table.len() ==> (#[trigger] table[i]).value == occurrences(names, table[i].name)
    &&& forall|name: Seq<char>| #[trigger]
        has_name(table, name) <==> occurrences(names, name) > 0
}

proof fn lemma_occurrences_bound(names: Seq<Seq<char>>, name: Seq<char>)
    ensures
        0 <= occurrences(names, name) <= names.len(),
    decreases names.len(),
{
    if names.len() > 0 {
        lemma_occurrences_bound(names.drop_last(), name);
    }
}

/// The position of an entry in a table.
fn position_named(table: &Vec<Named<usize>>, name: &str) -> (position: Option<usize>)
    ensures
        match position {
            Some(i) => i < table@.len() && views(table@)[i as int].name == name@,
            None => !has_name(views(table@), name@),
        },
{
    let ghost models = views(table@);
    for i in 0..table.len()
        invariant
            models == views(table@),
            forall|j: int| 0 <= j < i ==> (#[trigger] models[j]).name != name@,
    {
        assert(models[i as int] == table@[i as int]@);
        if text_eq(table[i].name.as_str(), name) {
            return Some(i);
        }
    }
    None
}

/// Counts one more name.
fn count_name(table: &mut Vec<Named<usize>>, name: &String, names: Ghost<Seq<Seq<char>>>)
    requires
        counts(views(old(table)@), names@),
        names@.len() < usize::MAX,
    ensures
        counts(views(final(table)@), names@.push(name@)),
{
    let ghost before = views(table@);
    let ghost after = names@.push(name@);
    assert(after.drop_last() =~= names@);
    proof {
        assert forall|other: Seq<char>| #[trigger] occurrences(after, other) == occurrences(
            names@,
            other,
        ) + (if other == name@ {
            1int
        } else {
            0
        }) by {}
        lemma_occurrences_bound(names@, name@);
    }
    if let Some(i) = position_named(table, name.as_str()) {
        assert(before[i as int] == table@[i as int]@);
        let value: usize = table[i].value + 1;
        let entry = Named { name: name.clone(), value };
        table.set(i, entry);
        proof {
            let now = views(table@);
            assert(now =~= before.update(i as int, entry@));
            assert forall|a: int, b: int| 0 <= a < b < now.len() implies key_less(
                (#[trigger] now[a]).key(),
                (#[trigger] now[b]).key(),
            ) by {
                assert(now[a].name == before[a].name && now[b].name == before[b].name);
                assert(key_less(before[a].key(), before[b].key()));
            }
            assert forall|a: int| 0 <= a < now.len() implies (#[trigger] now[a]).value
                == occurrences(after, now[a].name) by {
                assert(now[a].name == before[a].name);
                if a != i {
                    if a < i {
                        assert(key_less(before[a].key(), before[i as int].key()));
                    } else {
                        assert(key_less(before[i as int].key(), before[a].key()));
                    }
                    keys_are_totally_ordered(before[a].key(), before[i as int].key());
                }
            }
            assert forall|other: Seq<char>| #[trigger]
                has_name(now, other) <==> occurrences(after, other) > 0 by {
                if has_name(now, other) {
                    let k = choose|k: int| 0 <= k < now.len() && (#[trigger] now[k]).name == other;
                    assert(before[k].name == other);
                }
                if has_name(before, other) {
                    let k = choose|k: int|
                        0 <= k < before.len() && (#[trigger] before[k]).name == other;
                    assert(now[k].name == other);
                }
                assert(now[i as int].name == name@);
                lemma_occurrences_bound(names@, other);
            }
        }
        return;
    }
    assert(!has_name(before, name@));
    insert_named(table, Named { name: name.clone(), value: 1 });
    proof {
        let entry = NamedModel { name: name@, value: 1usize };
        let now = views(table@);
        assert(now == placed(before, entry));
        assert forall|other: Seq<char>| #[trigger]
            has_name(now, other) <==> occurrences(after, other) > 0 by {
            crate::order::placing_adds_one_name(before, entry, other);
            lemma_occurrences_bound(names@, other);
        }
        let at = crate::order::placing_is_insertion(before, entry);
        assert forall|a: int| 0 <= a < now.len() implies (#[trigger] now[a]).value == occurrences(
            after,
            now[a].name,
        ) by {
            if a != at {
                let k = if a < at {
                    a
                } else {
                    a - 1
                };
                assert(now[a] == before[k]);
                assert(before[k].name != name@);
            } else {
                lemma_occurrences_bound(names@, name@);
            }
        }
    }
}

/// Counts how many receivers of a suite belong to each family.
pub fn tally_families(families: &Vec<String>) -> (table: Vec<Named<usize>>)
    ensures
        counts(views(table@), views(families@)),
{
    let ghost models = views(families@);
    let mut table: Vec<Named<usize>> = Vec::new();
    assert(models.take(0) == Seq::<Seq<char>>::empty());
    for i in 0..families.len()
        invariant
            models == views(families@),
            counts(views(table@), models.take(i as int)),
    {
        count_name(&mut table, &families[i], Ghost(models.take(i as int)));
        proof {
            take_one_more(models, i as int);
        }
    }
    assert(models.take(models.len() as int) == models);
    table
}

/// The dense backend goes by `dense` and the sparse one by `sparse`, and there is no
/// other. Each is the alternative to the other, and only they have one.
pub proof fn backends_are_each_others_alternative(
    name: Seq<char>,
    backend: MaterializationStrategy,
)
    ensures
        backend_outcome(name) == Ok::<_, ErrorView>(MaterializationStrategy::DenseDelta) <==> name
            == "dense"@,
        backend_outcome(name) == Ok::<_, ErrorView>(MaterializationStrategy::SparseDelta) <==> name
            == "sparse"@,
        name != "dense"@ && name != "sparse"@ ==> backend_outcome(name) == Err::<
            MaterializationStrategy,
            _,
        >(ErrorView::Invalid("prepare_backend_invalid"@)),
        alternative_outcome(backend) matches Ok(other) ==> {
            &&& other != backend
            &&& alternative_outcome(other) == Ok::<_, PrepareErrorView>(backend)
            &&& backend == MaterializationStrategy::DenseDelta || other
                == MaterializationStrategy::DenseDelta
            &&& backend == MaterializationStrategy::SparseDelta || other
                == MaterializationStrategy::SparseDelta
        },
        alternative_outcome(backend) is Ok <==> backend == MaterializationStrategy::DenseDelta
            || backend == MaterializationStrategy::SparseDelta,
        alternative_outcome(backend) is Err ==> alternative_outcome(backend) == Err::<
            MaterializationStrategy,
            _,
        >(PrepareErrorView::Message("prepare backend unsupported"@)),
{
    reveal_strlit("dense");
    reveal_strlit("sparse");
    assert("dense"@.len() != "sparse"@.len());
}

/// A run is configured by four to six arguments: its model root, tensor, backend and
/// output directory stand in their places, a fifth names the capability and a sixth
/// the seed; without them the capability is the toggle and the seed zero.
pub proof fn runs_are_configured_by_their_arguments(
    args: Seq<Seq<char>>,
    tensor_id: Result<Seq<char>, ErrorView>,
)
    ensures
        run_outcome(args, tensor_id) matches Ok(run) ==> {
            &&& 4 <= args.len() <= 6
            &&& run.model_root == args[0]
            &&& tensor_id == Ok::<_, ErrorView>(run.tensor_id)
            &&& backend_outcome(args[2]) == Ok::<_, ErrorView>(run.backend)
            &&& run.output_dir == args[3]
            &&& args.len() > 4 ==> run.capability_id == args[4]
            &&& args.len() == 4 ==> run.capability_id == FiniteOperator::Toggle.capability_text()
            &&& args.len() > 5 ==> numeral_u64(args[5]) == Some(run.seed)
            &&& args.len() <= 5 ==> run.seed == 0
        },
        run_outcome(args, tensor_id) is Ok <==> {
            &&& 4 <= args.len() <= 6
            &&& args.len() == 6 ==> numeral_u64(args[5]) is Some
            &&& tensor_id is Ok
            &&& args[2] == "dense"@ || args[2] == "sparse"@
        },
        4 <= args.len() <= 6 && (args.len() == 6 ==> numeral_u64(args[5]) is Some) && tensor_id is Err
            ==> run_outcome(args, tensor_id) == Err::<RunModel, _>(
            PrepareErrorView::Brain(tensor_id->Err_0),
        ),
        args.len() == 6 && numeral_u64(args[5]) is None ==> run_outcome(args, tensor_id) == Err::<
            RunModel,
            _,
        >(PrepareErrorView::Message("prepare_seed_invalid"@)),
        args.len() < 4 || args.len() > 6 ==> run_outcome(args, tensor_id) == Err::<RunModel, _>(
            PrepareErrorView::Message(run_usage()),
        ),
{
}

/// A suite is configured by its backend, its output directory, its runner and the
/// model roots after them, of which there is at least one.
pub proof fn suites_are_configured_by_their_arguments(args: Seq<Seq<char>>)
    ensures
        suite_config_outcome(args) matches Ok(suite) ==> {
            &&& backend_outcome(args[0]) == Ok::<_, ErrorView>(suite.backend)
            &&& suite.output_dir == args[1]
            &&& suite.runner == args[2]
            &&& suite.model_roots.len() == args.len() - 3
            &&& suite.model_roots.len() > 0
            &&& forall|i: int|
                0 <= i < suite.model_roots.len() ==> #[trigger] suite.model_roots[i] == args[i + 3]
        },
        suite_config_outcome(args) is Ok <==> args.len() >= 4 && (args[0] == "dense"@ || args[0]
            == "sparse"@),
        args.len() < 4 ==> suite_config_outcome(args) == Err::<SuiteModel, _>(
            PrepareErrorView::Message(suite_usage()),
        ),
{
}

/// What the operators do to the two states: the identity keeps them, the toggle
/// exchanges them, a reset brings both to one of them, and the negation turns each
/// into its opposite.
pub proof fn operators_do_what_they_are_named_after()
    ensures
        ({
            let kept = FiniteOperator::Identity.signature();
            let toggled = FiniteOperator::Toggle.signature();
            let zero = FiniteOperator::Reset0.signature();
            let one = FiniteOperator::Reset1.signature();
            let negated = FiniteOperator::Negate.signature();
            let s0 = seq![Scalar { bits: 0x3FF0_0000_0000_0000 }, Scalar { bits: 0 }];
            let s1 = seq![Scalar { bits: 0 }, Scalar { bits: 0x3FF0_0000_0000_0000 }];
            &&& kept == s0 + s1
            &&& toggled == s1 + s0
            &&& zero == s0 + s0
            &&& one == s1 + s1
            &&& negated.len() == 4
            &&& forall|i: int|
                0 <= i < 4 && kept[i].bits != 0 ==> (#[trigger] negated[i]).bits == kept[i].bits
                    + 0x8000_0000_0000_0000
            &&& forall|i: int| 0 <= i < 4 && kept[i].bits == 0 ==> (#[trigger] negated[i]).bits == 0
        }),
        forall|operator: FiniteOperator|
            #![trigger operator.transition_models()]
            {
                let transitions = operator.transition_models();
                &&& transitions.len() == 2
                &&& transitions[0].source == "s0"@
                &&& transitions[1].source == "s1"@
                &&& anchor_values(transitions[0].target) + anchor_values(transitions[1].target)
                    == operator.signature()
            },
{
    reveal_strlit("n0");
    reveal_strlit("n1");
    reveal_strlit("s0");
    reveal_strlit("s1");
    assert("n0"@[0] == 'n' && "n0"@[1] == '0');
    assert("n1"@[0] == 'n' && "n1"@[1] == '1');
    assert("s0"@[0] == 's' && "s0"@[1] == '0');
    assert("s1"@[0] == 's' && "s1"@[1] == '1');
    let one = Scalar { bits: 0x3FF0_0000_0000_0000 };
    let zero = Scalar { bits: 0 };
    assert(anchor_values("s0"@) == seq![one, zero]);
    assert(anchor_values("s1"@) == seq![zero, one]);
    let negated = FiniteOperator::Negate.signature();
    let kept = FiniteOperator::Identity.signature();
    assert(kept[0] == one && kept[1] == zero && kept[2] == zero && kept[3] == one);
    assert(negated[0].bits == 0xBFF0_0000_0000_0000 && negated[1] == zero && negated[2] == zero
        && negated[3].bits == 0xBFF0_0000_0000_0000);
}

/// Every operator is found under its capability's name, with that name as its
/// identity, and nothing is found under another name.
pub proof fn capabilities_are_found_by_their_names(
    operator: FiniteOperator,
    id: Result<Seq<char>, ErrorView>,
)
    ensures
        capability_outcome(Ok(operator.capability_text())) == Ok::<_, ErrorView>(
            SpecModel { id: operator.capability_text(), operator },
        ),
        id matches Ok(name) ==> (capability_outcome(id) is Ok <==> name == "state.toggle:v1"@ || name
            == "state.identity:v1"@ || name == "state.reset0:v1"@ || name == "state.reset1:v1"@
            || name == "state.negate:v1"@),
        id matches Ok(_) && capability_outcome(id) is Err ==> capability_outcome(id) == Err::<
            SpecModel,
            _,
        >(ErrorView::Invalid("prepare_capability_unknown"@)),
        id matches Err(error) ==> capability_outcome(id) == Err::<SpecModel, _>(error),
        FiniteOperator::Toggle.operator_text() == "toggle"@,
        FiniteOperator::Identity.operator_text() == "identity"@,
        FiniteOperator::Reset0.operator_text() == "reset0"@,
        FiniteOperator::Reset1.operator_text() == "reset1"@,
        FiniteOperator::Negate.operator_text() == "negate"@,
{
    let text = operator.capability_text();
    let found = choose|o: FiniteOperator| #[trigger] o.capability_text() == text;
    capability_names_are_unambiguous(found, operator);
    assert(FiniteOperator::Toggle.capability_text() == "state.toggle:v1"@);
    assert(FiniteOperator::Identity.capability_text() == "state.identity:v1"@);
    assert(FiniteOperator::Reset0.capability_text() == "state.reset0:v1"@);
    assert(FiniteOperator::Reset1.capability_text() == "state.reset1:v1"@);
    assert(FiniteOperator::Negate.capability_text() == "state.negate:v1"@);
}

/// The place of an operator among those that serve as wrong ones.
pub open spec fn place_among_wrong(operator: FiniteOperator) -> int {
    match operator {
        FiniteOperator::Toggle => 0,
        FiniteOperator::Identity => 1,
        FiniteOperator::Reset0 => 2,
        FiniteOperator::Reset1 => 3,
        FiniteOperator::Negate => 4,
    }
}

/// The wrong operators are the first three others in the order of the capabilities.
pub proof fn wrong_operators_are_the_first_others(operator: FiniteOperator, other: FiniteOperator)
    ensures
        wrong_operators(operator).len() == 3,
        forall|i: int, j: int|
            0 <= i < j < 3 ==> place_among_wrong(#[trigger] wrong_operators(operator)[i])
                < place_among_wrong(#[trigger] wrong_operators(operator)[j]),
        wrong_operators(operator).contains(other) <==> other != operator && place_among_wrong(other)
            - (if place_among_wrong(operator) < place_among_wrong(other) {
            1int
        } else {
            0
        }) < 3,
{
    let list = wrong_operators(operator);
    assert(list[0] == list[0] && list[1] == list[1] && list[2] == list[2]);
    if other != operator && place_among_wrong(other) < 3 || (place_among_wrong(other) == 3
        && place_among_wrong(operator) < 3) {
        if other != operator {
            assert(list[0] == other || list[1] == other || list[2] == other);
        }
    }
    if list.contains(other) {
        let i = choose|i: int| 0 <= i < list.len() && list[i] == other;
        assert(i == 0 || i == 1 || i == 2);
    }
}

/// The items of a list are its parts without the blanks around them, in order, and
/// blank parts are none.
pub proof fn lists_hold_their_parts_in_order(
    parts: Seq<Seq<char>>,
    more: Seq<Seq<char>>,
    part: Seq<char>,
)
    ensures
        listed_items(parts + more) == listed_items(parts) + listed_items(more),
        trimmed(part, Margin::WhiteSpace).len() > 0 ==> listed_items(seq![part]) == seq![
            trimmed(part, Margin::WhiteSpace),
        ],
        trimmed(part, Margin::WhiteSpace).len() == 0 ==> listed_items(seq![part]).len() == 0,
    decreases more.len(),
{
    if more.len() == 0 {
        assert(parts + more == parts);
        assert(listed_items(parts) + listed_items(more) == listed_items(parts));
    } else {
        assert((parts + more).drop_last() == parts + more.drop_last());
        assert((parts + more).last() == more.last());
        lists_hold_their_parts_in_order(parts, more.drop_last(), part);
        let item = trimmed(more.last(), Margin::WhiteSpace);
        if item.len() > 0 {
            assert((listed_items(parts) + listed_items(more.drop_last())).push(item)
                == listed_items(parts) + listed_items(more.drop_last()).push(item));
        }
    }
    let single = seq![part];
    assert(single.drop_last() =~= Seq::<Seq<char>>::empty());
    assert(single.last() == part);
    assert(listed_items(single.drop_last()).len() == 0);
    assert(listed_items(single.drop_last()) =~= Seq::<Seq<char>>::empty());
    if trimmed(part, Margin::WhiteSpace).len() > 0 {
        assert(listed_items(single) == seq![trimmed(part, Margin::WhiteSpace)]);
    }
}

proof fn lemma_suite_lists_its_identities(ids: Seq<Result<Seq<char>, ErrorView>>)
    ensures
        suite_listed(ids) matches Ok(suite) ==> suite.len() == ids.len() && forall|i: int|
            0 <= i < ids.len() ==> capability_outcome(ids[i]) == Ok::<_, ErrorView>(
                #[trigger] suite[i],
            ),
    decreases ids.len(),
{
    if ids.len() > 0 {
        lemma_suite_lists_its_identities(ids.drop_last());
    }
}

proof fn lemma_sound_suites_are_listed(ids: Seq<Result<Seq<char>, ErrorView>>)
    requires
        forall|i: int| 0 <= i < ids.len() ==> capability_outcome(#[trigger] ids[i]) is Ok,
        forall|i: int, j: int|
            0 <= i < j < ids.len() ==> (#[trigger] ids[i]) != (#[trigger] ids[j]),
    ensures
        suite_listed(ids) is Ok,
    decreases ids.len(),
{
    if ids.len() > 0 {
        let front = ids.drop_last();
        lemma_sound_suites_are_listed(front);
        lemma_suite_lists_its_identities(front);
        let suite = suite_listed(front)->Ok_0;
        let capability = capability_outcome(ids.last())->Ok_0;
        assert(capability_outcome(ids[ids.len() - 1]) is Ok);
        if suite_has(suite, capability.id) {
            let i = choose|i: int| 0 <= i < suite.len() && (#[trigger] suite[i]).id == capability.id;
            assert(capability_outcome(front[i]) == Ok::<_, ErrorView>(suite[i]));
            assert(front[i] == ids[i]);
            assert(ids[i] == ids[ids.len() - 1]);
        }
    }
}

/// A suite lists the capability of every identity in its place, and it is accepted
/// exactly where every identity names a capability, none comes twice, and the
/// identity capability is among them.
pub proof fn suites_list_what_was_asked_for(ids: Seq<Result<Seq<char>, ErrorView>>)
    ensures
        suite_outcome(ids) matches Ok(suite) ==> suite.len() == ids.len() && forall|i: int|
            0 <= i < ids.len() ==> {
                &&& ids[i] == Ok::<_, ErrorView>((#[trigger] suite[i]).id)
                &&& suite[i].operator.capability_text() == suite[i].id
            },
        suite_outcome(ids) is Ok <==> {
            &&& forall|i: int| 0 <= i < ids.len() ==> capability_outcome(#[trigger] ids[i]) is Ok
            &&& forall|i: int, j: int|
                0 <= i < j < ids.len() ==> (#[trigger] ids[i]) != (#[trigger] ids[j])
            &&& ids.contains(Ok::<_, ErrorView>("state.identity:v1"@))
        },
{
    lemma_suite_lists_its_identities(ids);
    accepted_suites_have_no_duplicates(ids);
    if suite_listed(ids) is Ok {
        let suite = suite_listed(ids)->Ok_0;
        assert forall|i: int| 0 <= i < ids.len() implies ids[i] == Ok::<_, ErrorView>(
            (#[trigger] suite[i]).id,
        ) && suite[i].operator.capability_text() == suite[i].id by {
            assert(capability_outcome(ids[i]) == Ok::<_, ErrorView>(suite[i]));
        }
        assert forall|i: int| 0 <= i < ids.len() implies capability_outcome(#[trigger] ids[i]) is Ok by {
            assert(capability_outcome(ids[i]) == Ok::<_, ErrorView>(suite[i]));
        }
        if ids.contains(Ok::<_, ErrorView>("state.identity:v1"@)) {
            let i = choose|i: int|
                0 <= i < ids.len() && ids[i] == Ok::<_, ErrorView>("state.identity:v1"@);
            assert(suite[i].id == "state.identity:v1"@);
        }
        if suite_has(suite, "state.identity:v1"@) {
            let i = choose|i: int|
                0 <= i < suite.len() && (#[trigger] suite[i]).id == "state.identity:v1"@;
            assert(ids[i] == Ok::<_, ErrorView>("state.identity:v1"@));
        }
    }
    if suite_outcome(ids) is Ok {
        let suite = suite_outcome(ids)->Ok_0;
        assert forall|i: int, j: int| 0 <= i < j < ids.len() implies (#[trigger] ids[i]) != (
        #[trigger] ids[j]) by {
            assert(suite[i].id != suite[j].id);
        }
    }
    if (forall|i: int| 0 <= i < ids.len() ==> capability_outcome(#[trigger] ids[i]) is Ok) && (
    forall|i: int, j: int| 0 <= i < j < ids.len() ==> (#[trigger] ids[i]) != (#[trigger] ids[j])) {
        lemma_sound_suites_are_listed(ids);
    }
}

proof fn lemma_seeds_are_those_listed(items: Seq<Seq<char>>)
    ensures
        seeds_listed(items) matches Ok(seeds) ==> seeds.len() == items.len() && forall|i: int|
            0 <= i < items.len() ==> numeral_u64(items[i]) == Some(#[trigger] seeds[i]),
        seeds_listed(items) is Ok <==> {
            &&& forall|i: int| 0 <= i < items.len() ==> numeral_u64(#[trigger] items[i]) is Some
            &&& forall|i: int, j: int|
                0 <= i < j < items.len() ==> numeral_u64(#[trigger] items[i]) != numeral_u64(
                    #[trigger] items[j],
                )
        },
    decreases items.len(),
{
    if items.len() > 0 {
        let front = items.drop_last();
        lemma_seeds_are_those_listed(front);
        let last = items[items.len() - 1];
        assert(forall|i: int| 0 <= i < front.len() ==> front[i] == #[trigger] items[i]);
        assert(forall|i: int| 0 <= i < front.len() ==> items[i] == #[trigger] front[i]);
        if seeds_listed(front) is Ok && numeral_u64(last) is Some {
            let seeds = seeds_listed(front)->Ok_0;
            let seed = numeral_u64(last)->0;
            if seeds.contains(seed) {
                let i = choose|i: int| 0 <= i < seeds.len() && seeds[i] == seed;
                assert(numeral_u64(front[i]) == Some(seeds[i]));
                assert(numeral_u64(items[i]) == numeral_u64(items[items.len() - 1]));
            } else {
                assert forall|i: int, j: int| 0 <= i < j < items.len() implies numeral_u64(
                    #[trigger] items[i],
                ) != numeral_u64(#[trigger] items[j]) by {
                    assert(numeral_u64(front[i]) == Some(seeds[i]));
                    assert(seeds.contains(seeds[i]));
                    if j < front.len() {
                        assert(front[j] == items[j]);
                    }
                }
            }
        }
    }
}

/// The items that the seeds of a suite are read from.
pub open spec fn seed_items(configured: Option<Seq<char>>) -> Seq<Seq<char>> {
    if configured is Some {
        listed_items(split_on(configured->0, ','))
    } else {
        listed_items(split_on("0,1,2"@, ','))
    }
}

/// The seeds of a suite are the numerals that its list holds, in order. A list is
/// accepted exactly where every item is a numeral, no two stand for one seed, and
/// there is at least one; with no list the seeds are those of `0,1,2`.
pub proof fn seeds_are_those_that_are_listed(configured: Option<Seq<char>>)
    ensures
        seeds_outcome(configured) is Ok <==> {
            let items = seed_items(configured);
            &&& items.len() > 0
            &&& forall|i: int| 0 <= i < items.len() ==> numeral_u64(#[trigger] items[i]) is Some
            &&& forall|i: int, j: int|
                0 <= i < j < items.len() ==> numeral_u64(#[trigger] items[i]) != numeral_u64(
                    #[trigger] items[j],
                )
        },
        seeds_outcome(configured) matches Ok(seeds) ==> seeds.len() == seed_items(configured).len()
            && forall|i: int|
            0 <= i < seeds.len() ==> numeral_u64(seed_items(configured)[i]) == Some(
                #[trigger] seeds[i],
            ),
        seed_items(configured).len() == 0 ==> seeds_outcome(configured) == Err::<Seq<u64>, _>(
            PrepareErrorView::Message("suite_seed_set_empty"@),
        ),
{
    lemma_seeds_are_those_listed(seed_items(configured));
}

/// Whether a difference is no larger than one part in a thousand million, or is no
/// number at all.
pub open spec fn slight(difference: Scalar) -> bool {
    difference.nan() || (Scalar { bits: difference.magnitude() as u64 }).at_most(
        Scalar { bits: 0x3E11_2E0B_E826_D695 },
    )
}

proof fn lemma_magnitudes_are_plain(difference: Scalar)
    ensures
        ({
            let plain = Scalar { bits: difference.magnitude() as u64 };
            &&& plain.magnitude() == difference.magnitude()
            &&& plain.nan() == difference.nan()
            &&& plain.bits < 0x8000_0000_0000_0000
        }),
{
}

proof fn lemma_largest_difference(differences: Seq<Scalar>)
    ensures
        !largest_difference(differences).nan(),
        largest_difference(differences).at_most(Scalar { bits: CLOSE_BITS }) <==> forall|i: int|
            0 <= i < differences.len() ==> slight(#[trigger] differences[i]),
    decreases differences.len(),
{
    crate::scalar::lemma_magnitude_zero(0);
    if differences.len() == 0 {
        let zero = Scalar { bits: 0 };
        crate::scalar::numbers_are_ordered_by_their_patterns(zero, Scalar { bits: CLOSE_BITS });
    } else {
        let front = differences.drop_last();
        lemma_largest_difference(front);
        let last = differences[differences.len() - 1];
        lemma_magnitudes_are_plain(last);
        assert(forall|i: int| 0 <= i < front.len() ==> front[i] == #[trigger] differences[i]);
        assert(forall|i: int| 0 <= i < front.len() ==> #[trigger] front[i] == differences[i]);
    }
}

/// Two signatures are close exactly where they are equally long and no number of one
/// differs more than slightly from that of the other.
pub proof fn signatures_are_close_number_by_number(left: int, right: int, differences: Seq<Scalar>)
    ensures
        close(left, right, differences) <==> left == right && forall|i: int|
            0 <= i < differences.len() ==> slight(#[trigger] differences[i]),
{
    lemma_largest_difference(differences);
}

/// The positions of the candidates that a calibration uses.
proof fn lemma_positions_used(varied: Seq<VariedModel>, target: Seq<Scalar>) -> (positions: Seq<int>)
    ensures
        positions.len() == calibration_used(varied, target).len(),
        forall|k: int|
            0 <= k < positions.len() ==> 0 <= #[trigger] positions[k] < varied.len()
                && calibration_used(varied, target)[k] == varied[positions[k]],
        forall|k: int, l: int|
            0 <= k < l < positions.len() ==> #[trigger] positions[k] < #[trigger] positions[l],
        forall|i: int|
            0 <= i < varied.len() ==> (positions.contains(i) <==> calibration_table()[i] != target
                && !close(
                varied[i].signature.len() as int,
                target.len() as int,
                (#[trigger] varied[i]).differences,
            )),
    decreases varied.len(),
{
    if varied.len() == 0 {
        Seq::empty()
    } else {
        let front = varied.drop_last();
        let before = lemma_positions_used(front, target);
        let n = varied.len() - 1;
        let last = varied[n];
        let used = calibration_table()[n] != target && !close(
            last.signature.len() as int,
            target.len() as int,
            last.differences,
        );
        let positions = if used {
            before.push(n)
        } else {
            before
        };
        assert forall|i: int| 0 <= i < varied.len() implies (positions.contains(i)
            <==> calibration_table()[i] != target && !close(
            varied[i].signature.len() as int,
            target.len() as int,
            (#[trigger] varied[i]).differences,
        )) by {
            if i < n {
                assert(front[i] == varied[i]);
                if before.contains(i) {
                    let k = choose|k: int| 0 <= k < before.len() && before[k] == i;
                    assert(positions[k] == i);
                }
                if positions.contains(i) {
                    let k = choose|k: int| 0 <= k < positions.len() && positions[k] == i;
                    assert(before[k] == i);
                }
            } else {
                if used {
                    assert(positions[before.len() as int] == n);
                } else if before.contains(n) {
                    let k = choose|k: int| 0 <= k < before.len() && before[k] == n;
                    assert(before[k] < front.len());
                }
            }
        }
        positions
    }
}

/// A calibration uses, in the order of the table, every candidate that is neither
/// the target nor comes out close to it, and no other: its signature as it was
/// varied and its scaled numbers.
pub proof fn calibrations_use_every_other_candidate(
    varied: Seq<VariedModel>,
    target: Seq<Scalar>,
) -> (positions: Seq<int>)
    ensures
        calibration_rows(varied, target).len() == positions.len(),
        calibration_scaled(varied, target).len() == positions.len(),
        forall|k: int|
            0 <= k < positions.len() ==> {
                &&& 0 <= #[trigger] positions[k] < varied.len()
                &&& calibration_rows(varied, target)[k] == varied[positions[k]].signature
                &&& calibration_scaled(varied, target)[k] == varied[positions[k]].scaled
            },
        forall|k: int, l: int|
            0 <= k < l < positions.len() ==> #[trigger] positions[k] < #[trigger] positions[l],
        forall|i: int|
            0 <= i < varied.len() ==> (positions.contains(i) <==> calibration_table()[i] != target
                && !((#[trigger] varied[i]).signature.len() == target.len() && forall|j: int|
                0 <= j < varied[i].differences.len() ==> slight(
                    #[trigger] varied[i].differences[j],
                ))),
{
    let positions = lemma_positions_used(varied, target);
    assert forall|i: int| 0 <= i < varied.len() implies (positions.contains(i)
        <==> calibration_table()[i] != target && !((#[trigger] varied[i]).signature.len()
        == target.len() && forall|j: int|
        0 <= j < varied[i].differences.len() ==> slight(#[trigger] varied[i].differences[j]))) by {
        lemma_largest_difference(varied[i].differences);
    }
    positions
}

/// The step of a variation is what is left of the mixture of seed, candidate and
/// slot, first beyond sixty-four bits and then beyond two thousand.
pub proof fn steps_mix_seed_candidate_and_slot(seed: u64, index: u64, slot: u64) -> (parts: (
    int,
    int,
))
    ensures
        0 <= variation(seed, index, slot) <= 2000,
        seed * 0x9E37_79B9_7F4A_7C15 + index * 0xBF58_476D_1CE4_E5B9 + slot * 0x94D0_49BB_1331_11EB
            == parts.0 * 0x1_0000_0000_0000_0000 + parts.1 * 2001 + variation(seed, index, slot),
        0 <= parts.1 * 2001 + variation(seed, index, slot) < 0x1_0000_0000_0000_0000,
{
    let mixed = seed * 0x9E37_79B9_7F4A_7C15 + index * 0xBF58_476D_1CE4_E5B9 + slot
        * 0x94D0_49BB_1331_11EB;
    (mixed / 0x1_0000_0000_0000_0000, (mixed % 0x1_0000_0000_0000_0000) / 2001)
}

/// Every number of a signature is varied by the step of its own slot, on the scale
/// that was asked for.
pub proof fn numbers_are_varied_by_their_slots(
    signature: Seq<Scalar>,
    seed: u64,
    index: u64,
    scale: Scalar,
    slot: u64,
)
    requires
        slot < signature.len(),
    ensures
        row_variation(signature, seed, index, scale).len() == signature.len(),
        row_variation(signature, seed, index, scale)[slot as int].value == signature[slot as int],
        row_variation(signature, seed, index, scale)[slot as int].step == variation(
            seed,
            index,
            slot,
        ),
        row_variation(signature, seed, index, scale)[slot as int].scale == scale,
{
}

} // verus!
