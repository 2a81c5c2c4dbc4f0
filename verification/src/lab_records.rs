//! What the laboratory writes down for a run: the receiver request, the probes,
//! the tensor it works on, the metrics it reports and the trials it counts.

use crate::checkpoint_adapter::{
    InventoryModel, ItemModel, SafeTensorsCheckpointInventory, SafeTensorsTensorInventoryItem,
};
use crate::checkpoint_inspection::{RequestModel, SafeTensorsReceiverRequest};
use crate::error::{BrainResult, ErrorView};
use crate::identity::{ArchitectureId, ModelId, TensorId};
use crate::json::{member, Json, JsonTree};
use crate::lab_naming::{family_rank, module_family_rank, safe_slug, slug_text};
use crate::lab_policies::{
    protocol, protocol_for, EvidenceInputModel, TrialModel,
    UniversalityEvidenceInput, UniversalityProtocol, UniversalityTrial,
};
use crate::lab_suite::{prepared, CapabilitySpec, PrepareError, PrepareErrorView, SpecModel};
use crate::order::{
    key_less, keys_are_totally_ordered, outcome, text_key, text_standing,
    views, views_push, KeyModel, Keyed, Standing,
};
use crate::paths::{FilePath, PartModel, PathModel, PathPart};
use crate::receiver_compiler::{CompilationModel, ReceiverCompilation};
use crate::receiver_profile::{
    ArchitectureModel, CapabilityModality, MaterializationStrategy, ModalityModel,
    ReceiverArchitecture,
};
use crate::scalar::{lemma_magnitude_zero, lemma_one, Scalar, ONE_BITS};
use crate::text::{decimal, decimal_text, joined, text_eq};
use vstd::prelude::*;

verus! {

broadcast use views_push;

/// The relative path that is one name.
pub open spec fn single_name(name: Seq<char>) -> PathModel {
    PathModel { parts: seq![PartModel::Name(vstd::utf8::encode_utf8(name))] }
}

/// The relative path that is one name.
pub fn file_named(name: &str) -> (path: FilePath)
    ensures
        path@ == single_name(name@),
{
    let encoded = name.as_bytes();
    let mut bytes: Vec<u8> = Vec::new();
    for i in 0..encoded.len()
        invariant
            bytes@ == encoded@.take(i as int),
    {
        bytes.push(encoded[i]);
        assert(encoded@.take(i + 1) == encoded@.take(i as int).push(encoded@[i as int]));
    }
    assert(encoded@.take(encoded@.len() as int) == encoded@);
    let path = FilePath { parts: vec![PathPart::Name(bytes)] };
    assert(path@.parts =~= single_name(name@).parts);
    path
}

/// The request to inspect a local receiver, or the error of an identity that
/// could not be read.
pub open spec fn receiver_request_outcome(
    model_id: Result<Seq<char>, ErrorView>,
    architecture_id: Result<Seq<char>, ErrorView>,
    tensor_id: Seq<char>,
) -> Result<RequestModel, ErrorView> {
    match (model_id, architecture_id) {
        (Err(error), _) => Err(error),
        (_, Err(error)) => Err(error),
        (Ok(model_id), Ok(architecture_id)) => Ok(
            RequestModel {
                schema: "cerebro.tidex.safetensors_receiver_request/v1"@,
                model_id,
                architecture_id,
                architecture: ArchitectureModel::Unknown,
                modalities: seq![ModalityModel::Text],
                supports_persistent_state: false,
                checkpoint_files: seq![single_name("model.safetensors"@)],
                configuration_file: single_name("config.json"@),
                tokenizer_file: single_name("tokenizer.json"@),
                supported_strategies: seq![
                    MaterializationStrategy::DenseDelta,
                    MaterializationStrategy::SparseDelta,
                ],
                materialization_tensors: seq![tensor_id],
            },
        ),
    }
}

/// The request to inspect a local receiver.
pub fn receiver_request(
    model_id: BrainResult<ModelId>,
    architecture_id: BrainResult<ArchitectureId>,
    tensor_id: TensorId,
) -> (request: BrainResult<SafeTensorsReceiverRequest>)
    ensures
        outcome(request) == receiver_request_outcome(
            outcome(model_id),
            outcome(architecture_id),
            tensor_id@,
        ),
{
    let model_id = model_id?;
    let architecture_id = architecture_id?;
    let ghost tensor = tensor_id@;
    let request = SafeTensorsReceiverRequest {
        schema: "cerebro.tidex.safetensors_receiver_request/v1".to_owned(),
        model_id,
        architecture_id,
        architecture: ReceiverArchitecture::Unknown,
        modalities: vec![CapabilityModality::Text],
        supports_persistent_state: false,
        checkpoint_files: vec![file_named("model.safetensors")],
        configuration_file: file_named("config.json"),
        tokenizer_file: file_named("tokenizer.json"),
        supported_strategies: vec![
            MaterializationStrategy::DenseDelta,
            MaterializationStrategy::SparseDelta,
        ],
        materialization_tensors: vec![tensor_id],
    };
    assert(request@.modalities =~= seq![ModalityModel::Text]);
    assert(request@.checkpoint_files =~= seq![single_name("model.safetensors"@)]);
    assert(request@.supported_strategies =~= seq![
        MaterializationStrategy::DenseDelta,
        MaterializationStrategy::SparseDelta,
    ]);
    assert(request@.materialization_tensors =~= seq![tensor]);
    Ok(request)
}

/// One probe of a capability, with the texts whose digests stand for its input
/// and its output.
#[derive(Debug)]
pub struct ProbeRecord {
    pub trial_id: String,
    pub probe_id: String,
    pub seed: u64,
    pub input_text: String,
    pub output_text: String,
}

/// The model of a [`ProbeRecord`].
pub struct ProbeModel {
    pub trial_id: Seq<char>,
    pub probe_id: Seq<char>,
    pub seed: u64,
    pub input_text: Seq<char>,
    pub output_text: Seq<char>,
}

impl View for ProbeRecord {
    type V = ProbeModel;

    open spec fn view(&self) -> ProbeModel {
        ProbeModel {
            trial_id: self.trial_id@,
            probe_id: self.probe_id@,
            seed: self.seed,
            input_text: self.input_text@,
            output_text: self.output_text@,
        }
    }
}

/// The seed of a probe: that of the run, times ten thousand, plus the index,
/// kept within the range of seeds.
pub open spec fn probe_seed(seed: u64, index: u64) -> u64 {
    if seed * 10000 + index <= u64::MAX {
        (seed * 10000 + index) as u64
    } else {
        u64::MAX
    }
}

/// One probe of a capability.
pub open spec fn probe_of(capability: SpecModel, seed: u64, index: u64) -> ProbeModel {
    let operator = capability.operator.operator_text();
    ProbeModel {
        trial_id: operator + "-seed-"@ + decimal(seed as int) + "-probe-"@ + decimal(index as int),
        probe_id: capability.id,
        seed: probe_seed(seed, index),
        input_text: capability.id + "-probe-input-"@ + decimal(seed as int) + "-"@ + decimal(
            index as int,
        ),
        output_text: capability.id + "-probe-output-"@ + decimal(seed as int) + "-"@ + decimal(
            index as int,
        ),
    }
}

/// A text, a separator and a number.
fn numbered(text: &str, separator: &str, number: u64) -> (out: String)
    ensures
        out@ == text@ + separator@ + decimal(number as int),
{
    let prefix = joined(text, separator);
    joined(prefix.as_str(), decimal_text(number).as_str())
}

/// One probe of a capability.
pub fn probe(capability: &CapabilitySpec, seed: u64, index: u64) -> (record: ProbeRecord)
    ensures
        record@ == probe_of(capability@, seed, index),
{
    let id = capability.id.as_str();
    let trial = numbered(capability.operator.operator_id(), "-seed-", seed);
    let input = numbered(id, "-probe-input-", seed);
    let output = numbered(id, "-probe-output-", seed);
    let scaled: u64 = match seed.checked_mul(10000) {
        Some(scaled) => match scaled.checked_add(index) {
            Some(sum) => sum,
            None => u64::MAX,
        },
        None => u64::MAX,
    };
    ProbeRecord {
        trial_id: numbered(trial.as_str(), "-probe-", index),
        probe_id: id.to_owned(),
        seed: scaled,
        input_text: numbered(input.as_str(), "-", index),
        output_text: numbered(output.as_str(), "-", index),
    }
}

/// The identity under which the source of a capability is acquired.
pub open spec fn acquisition_text(capability: SpecModel, seed: u64) -> Seq<char> {
    "real-universal-lab-"@ + capability.operator.operator_text() + "-seed-"@ + decimal(seed as int)
}

/// The identity under which the source of a capability is acquired.
pub fn acquisition_name(capability: &CapabilitySpec, seed: u64) -> (name: String)
    ensures
        name@ == acquisition_text(capability@, seed),
{
    let prefix = joined("real-universal-lab-", capability.operator.operator_id());
    numbered(prefix.as_str(), "-seed-", seed)
}

/// A tensor that a run can work on: of a continuous type, neither tiny nor large.
pub open spec fn eligible(item: ItemModel) -> bool {
    item.materializable && 4 <= item.element_count <= 4096
}

impl KeyModel for ItemModel {
    /// Tensors are ordered by the rank of their family, then by size, then by
    /// name.
    open spec fn key(self) -> Seq<int> {
        seq![family_rank(self.tensor_id) as int, self.element_count as int] + text_key(
            self.tensor_id,
        )
    }
}

impl Keyed for SafeTensorsTensorInventoryItem {
    fn stand(&self, other: &Self) -> (standing: Standing) {
        let (a, b) = (
            module_family_rank(self.tensor_id.as_str()),
            module_family_rank(other.tensor_id.as_str()),
        );
        let ghost x = self@.key();
        let ghost y = other@.key();
        proof {
            assert(x.skip(1).skip(1) =~= text_key(self@.tensor_id));
            assert(y.skip(1).skip(1) =~= text_key(other@.tensor_id));
            assert(x[0] == a && y[0] == b);
            assert(x.skip(1)[0] == self.element_count && y.skip(1)[0] == other.element_count);
            reveal_with_fuel(key_less, 3);
            if x == y {
                assert(x.skip(1).skip(1) == y.skip(1).skip(1));
            }
            if a == b && self.element_count == other.element_count && text_key(self@.tensor_id)
                == text_key(other@.tensor_id) {
                assert(x =~= y);
            }
        }
        if a < b {
            Standing::Before
        } else if a > b {
            Standing::After
        } else if self.element_count < other.element_count {
            Standing::Before
        } else if self.element_count > other.element_count {
            Standing::After
        } else {
            text_standing(self.tensor_id.as_str(), other.tensor_id.as_str())
        }
    }
}

/// The first of the least eligible tensors among the first `n`.
pub open spec fn least_eligible(items: Seq<ItemModel>, n: int) -> Option<int>
    decreases n,
{
    if n <= 0 {
        None
    } else {
        let before = least_eligible(items, n - 1);
        if !eligible(items[n - 1]) {
            before
        } else {
            match before {
                None => Some(n - 1),
                Some(best) => if key_less(items[n - 1].key(), items[best].key()) {
                    Some(n - 1)
                } else {
                    before
                },
            }
        }
    }
}

/// The tensor that a run works on.
pub open spec fn selection_outcome(inventory: Result<InventoryModel, ErrorView>) -> Result<
    Seq<char>,
    PrepareErrorView,
> {
    match inventory {
        Err(error) => Err(PrepareErrorView::Brain(error)),
        Ok(inventory) => match least_eligible(inventory.tensors, inventory.tensors.len() as int) {
            None => Err(PrepareErrorView::Message("suite_no_small_materializable_tensor"@)),
            Some(best) => Ok(inventory.tensors[best].tensor_id),
        },
    }
}

proof fn lemma_least_eligible(items: Seq<ItemModel>, n: int)
    requires
        0 <= n <= items.len(),
    ensures
        least_eligible(items, n) matches Some(best) ==> {
            &&& 0 <= best < n
            &&& eligible(items[best])
            &&& forall|i: int|
                0 <= i < n && eligible(#[trigger] items[i]) ==> !key_less(
                    items[i].key(),
                    items[best].key(),
                )
        },
        least_eligible(items, n) is None ==> forall|i: int|
            0 <= i < n ==> !eligible(#[trigger] items[i]),
    decreases n,
{
    if n > 0 {
        lemma_least_eligible(items, n - 1);
        if let Some(best) = least_eligible(items, n) {
            keys_are_totally_ordered(items[best].key(), items[best].key());
            if let Some(before) = least_eligible(items, n - 1) {
                if best == n - 1 {
                    assert forall|i: int|
                        0 <= i < n && eligible(#[trigger] items[i]) implies !key_less(
                        items[i].key(),
                        items[best].key(),
                    ) by {
                        if i < n - 1 && key_less(items[i].key(), items[best].key()) {
                            crate::order::keys_order_transitively(
                                items[i].key(),
                                items[best].key(),
                                items[before].key(),
                            );
                        }
                    }
                }
            }
        }
    }
}

/// Chooses the tensor that a run works on.
pub fn select_materialization_tensor(inventory: &BrainResult<SafeTensorsCheckpointInventory>) -> (
    tensor: Result<TensorId, PrepareError>)
    ensures
        prepared(tensor) == selection_outcome(outcome(*inventory)),
{
    let tensors = match inventory {
        Ok(inventory) => &inventory.tensors,
        Err(error) => {
            return Err(PrepareError::Brain(error.duplicate()));
        },
    };
    let ghost models = views(tensors@);
    let mut best: Option<usize> = None;
    for i in 0..tensors.len()
        invariant
            models == views(tensors@),
            match best {
                Some(at) => at < i && least_eligible(models, i as int) == Some(at as int),
                None => least_eligible(models, i as int) is None,
            },
    {
        assert(models[i as int] == tensors@[i as int]@);
        let item = &tensors[i];
        if item.materializable && item.element_count >= 4 && item.element_count <= 4096 {
            match best {
                None => {
                    best = Some(i);
                },
                Some(at) => {
                    assert(models[at as int] == tensors@[at as int]@);
                    if let Standing::Before = item.stand(&tensors[at]) {
                        best = Some(i);
                    }
                },
            }
        }
    }
    match best {
        Some(at) => {
            assert(models[at as int] == tensors@[at as int]@);
            Ok(tensors[at].tensor_id.clone())
        },
        None => Err(PrepareError::message("suite_no_small_materializable_tensor")),
    }
}

/// The chosen tensor is eligible and no eligible tensor comes before it; where
/// none is chosen, none is eligible.
pub proof fn chosen_tensor_is_the_least_eligible_one(inventory: InventoryModel)
    ensures
        match selection_outcome(Ok(inventory)) {
            Ok(id) => exists|best: int|
                {
                    &&& 0 <= best < inventory.tensors.len()
                    &&& (#[trigger] inventory.tensors[best]).tensor_id == id
                    &&& eligible(inventory.tensors[best])
                    &&& forall|i: int|
                        0 <= i < inventory.tensors.len() && eligible(
                            #[trigger] inventory.tensors[i],
                        ) ==> !key_less(inventory.tensors[i].key(), inventory.tensors[best].key())
                },
            Err(_) => forall|i: int|
                0 <= i < inventory.tensors.len() ==> !eligible(#[trigger] inventory.tensors[i]),
        },
{
    lemma_least_eligible(inventory.tensors, inventory.tensors.len() as int);
}

/// The member that holds a digest.
pub open spec fn digest_member(value: JsonTree, field: Seq<char>) -> Result<
    JsonTree,
    PrepareErrorView,
> {
    match member(value, field) {
        Some(tree) => Ok(tree),
        None => Err(PrepareErrorView::Message("missing digest field: "@ + field)),
    }
}

/// The member that holds a digest.
pub fn digest_field<'a>(value: &'a Json, field: &str) -> (found: Result<&'a Json, PrepareError>)
    ensures
        match found {
            Ok(json) => digest_member(value@, field@) == Ok::<_, PrepareErrorView>(json@),
            Err(error) => digest_member(value@, field@) == Err::<JsonTree, _>(error@),
        },
{
    match value.get(field) {
        Some(found) => Ok(found),
        None => Err(PrepareError::Message(joined("missing digest field: ", field))),
    }
}

/// The rows of the identity matrix.
pub open spec fn identity_matrix(dimension: nat) -> Seq<Seq<Scalar>> {
    Seq::new(
        dimension,
        |row: int|
            Seq::new(
                dimension,
                |column: int|
                    if row == column {
                        Scalar { bits: ONE_BITS }
                    } else {
                        Scalar { bits: 0 }
                    },
            ),
    )
}

/// The rows of the identity matrix.
pub fn identity_rows(dimension: usize) -> (rows: Vec<Vec<Scalar>>)
    ensures
        views(rows@) == identity_matrix(dimension as nat),
{
    let ghost wanted = identity_matrix(dimension as nat);
    let mut rows: Vec<Vec<Scalar>> = Vec::new();
    assert(wanted.take(0) =~= views(rows@));
    for row in 0..dimension
        invariant
            wanted == identity_matrix(dimension as nat),
            views(rows@) == wanted.take(row as int),
    {
        let mut values: Vec<Scalar> = Vec::new();
        for column in 0..dimension
            invariant
                row < dimension,
                wanted == identity_matrix(dimension as nat),
                values@ == wanted[row as int].take(column as int),
        {
            values.push(
                if row == column {
                    Scalar { bits: ONE_BITS }
                } else {
                    Scalar { bits: 0 }
                },
            );
            proof {
                crate::order::take_one_more(wanted[row as int], column as int);
            }
        }
        assert(wanted[row as int].take(dimension as int) =~= wanted[row as int]);
        rows.push(values);
        proof {
            crate::order::take_one_more(wanted, row as int);
        }
    }
    assert(wanted.take(dimension as int) =~= wanted);
    rows
}

/// How many parameters of a receiver a synthetic solution touches.
pub const SOLUTION_PARAMETERS: usize = 4;

/// A synthetic solution: the first numbers, then zeros.
pub open spec fn solution_of(scaled: Seq<Scalar>, dimension: nat) -> Seq<Scalar> {
    Seq::new(
        dimension,
        |i: int|
            if i < SOLUTION_PARAMETERS && i < scaled.len() {
                scaled[i]
            } else {
                Scalar { bits: 0 }
            },
    )
}

/// A synthetic solution for a receiver of the given dimension, from the scaled
/// numbers of a signature.
pub fn receiver_solution(scaled: &Vec<Scalar>, dimension: usize) -> (solution: Vec<Scalar>)
    ensures
        solution@ == solution_of(scaled@, dimension as nat),
{
    let ghost wanted = solution_of(scaled@, dimension as nat);
    let mut solution: Vec<Scalar> = Vec::new();
    for i in 0..dimension
        invariant
            wanted == solution_of(scaled@, dimension as nat),
            solution@ == wanted.take(i as int),
    {
        solution.push(
            if i < SOLUTION_PARAMETERS && i < scaled.len() {
                scaled[i]
            } else {
                Scalar { bits: 0 }
            },
        );
        proof {
            crate::order::take_one_more(wanted, i as int);
        }
    }
    assert(wanted.take(dimension as int) =~= wanted);
    solution
}

/// The pattern of ten to the power of minus fifteen.
pub const LEAST_COST_BITS: u64 = 0x3CD2_03AF_9EE7_5616;

/// The numbers of a compilation that its readings are computed from.
#[derive(Debug, Clone, Copy, PartialEq, Eq, Structural)]
pub struct ReadingOperands {
    /// What the functional complement takes from one.
    pub functional_error: Scalar,
    /// What the protection complement takes from one.
    pub protection_damage: Scalar,
    /// The cost that the quotient divides.
    pub accepted_cost: Scalar,
    /// The cost that the quotient divides by.
    pub maximum_cost: Scalar,
}

/// The operands of the readings of a compilation, over the given maximum cost.
pub open spec fn operands_over(
    compilation: CompilationModel,
    maximum_cost: Scalar,
) -> ReadingOperands {
    ReadingOperands {
        functional_error: compilation.functional_relative_error,
        protection_damage: compilation.protection_damage_ratio,
        accepted_cost: compilation.trust_region.accepted_quadratic_cost,
        maximum_cost,
    }
}

/// The operands of the readings that a shadow evaluation reports: the costs are
/// compared as the trust region states them.
pub fn shadow_operands(compilation: &ReceiverCompilation) -> (operands: ReadingOperands)
    ensures
        operands == operands_over(
            compilation@,
            compilation@.trust_region.max_quadratic_cost,
        ),
{
    ReadingOperands {
        functional_error: compilation.functional_relative_error,
        protection_damage: compilation.protection_damage_ratio,
        accepted_cost: compilation.trust_region.accepted_quadratic_cost,
        maximum_cost: compilation.trust_region.max_quadratic_cost,
    }
}

/// The operands of the readings that the evidence of a single run reports: the
/// maximum cost is at least ten to the power of minus fifteen.
pub fn universality_operands(compilation: &ReceiverCompilation) -> (operands: ReadingOperands)
    ensures
        operands == operands_over(
            compilation@,
            compilation@.trust_region.max_quadratic_cost.greatest(
                Scalar { bits: LEAST_COST_BITS },
            ),
        ),
{
    ReadingOperands {
        functional_error: compilation.functional_relative_error,
        protection_damage: compilation.protection_damage_ratio,
        accepted_cost: compilation.trust_region.accepted_quadratic_cost,
        maximum_cost: compilation.trust_region.max_quadratic_cost.max(
            Scalar { bits: LEAST_COST_BITS },
        ),
    }
}

/// What the host computes from the operands of a compilation.
#[derive(Debug, Clone, Copy, PartialEq, Eq, Structural)]
pub struct ShadowReadings {
    /// One less the functional error.
    pub functional_complement: Scalar,
    /// One less the damage of the protection.
    pub protection_complement: Scalar,
    /// The accepted cost over the maximum cost.
    pub cost_quotient: Scalar,
}

/// The metrics that an evaluation document reports.
#[derive(Debug, Clone, Copy, PartialEq, Eq, Structural)]
pub struct ShadowMetrics {
    pub functional_score: Scalar,
    pub functional_ci_lower: Scalar,
    pub preservation_score: Scalar,
    pub identity_margin: Scalar,
    pub numerical_stability: Scalar,
    pub normalized_risk: Scalar,
}

/// The metrics of a compilation: every number is brought between zero and one,
/// and the lower bound is the least of all that speak for the compilation.
pub open spec fn metrics_of(
    compilation: CompilationModel,
    readings: ShadowReadings,
) -> ShadowMetrics {
    let functional_score = readings.functional_complement.clamped();
    ShadowMetrics {
        functional_score,
        functional_ci_lower: (Scalar { bits: ONE_BITS }).least(functional_score).least(
            compilation.correct_cosine.clamped(),
        ).least(compilation.decoder_loo_r2.clamped()).least(
            compilation.encoder_loo_r2.clamped(),
        ).least(compilation.decoder_min_loo_cosine.clamped()).least(
            compilation.encoder_min_loo_cosine.clamped(),
        ),
        preservation_score: readings.protection_complement.clamped(),
        identity_margin: compilation.identity_margin.clamped(),
        numerical_stability: compilation.trust_region.scale.clamped(),
        normalized_risk: if compilation.trust_region.max_quadratic_cost.at_most(
            Scalar { bits: 0 },
        ) {
            Scalar { bits: ONE_BITS }
        } else {
            readings.cost_quotient.clamped()
        },
    }
}

/// The metrics of a compilation, with the readings of [`shadow_operands`].
pub fn shadow_metrics(compilation: &ReceiverCompilation, readings: ShadowReadings) -> (metrics:
    ShadowMetrics)
    ensures
        metrics == metrics_of(compilation@, readings),
{
    let functional_score = readings.functional_complement.clamp_unit();
    let functional_ci_lower = (Scalar { bits: ONE_BITS }).min(functional_score).min(
        compilation.correct_cosine.clamp_unit(),
    ).min(compilation.decoder_loo_r2.clamp_unit()).min(compilation.encoder_loo_r2.clamp_unit()).min(
        compilation.decoder_min_loo_cosine.clamp_unit(),
    ).min(compilation.encoder_min_loo_cosine.clamp_unit());
    ShadowMetrics {
        functional_score,
        functional_ci_lower,
        preservation_score: readings.protection_complement.clamp_unit(),
        identity_margin: compilation.identity_margin.clamp_unit(),
        numerical_stability: compilation.trust_region.scale.clamp_unit(),
        normalized_risk: if compilation.trust_region.max_quadratic_cost.le(Scalar { bits: 0 }) {
            Scalar { bits: ONE_BITS }
        } else {
            readings.cost_quotient.clamp_unit()
        },
    }
}

proof fn lemma_least_of_fractions(bound: Scalar, number: Scalar)
    requires
        bound.is_unit_interval(),
    ensures
        bound.least(number.clamped()).is_unit_interval(),
        bound.least(number.clamped()).at_most(bound),
{
    if !number.nan() {
        crate::scalar::clamping_lands_in_the_unit_interval(number);
    }
}

/// Whether a compilation and its readings give a number for every metric: the two
/// complements, the margin and the scale are numbers, and so is the quotient of
/// the costs where there is a positive maximum.
pub open spec fn metrics_are_numbers(
    compilation: CompilationModel,
    readings: ShadowReadings,
) -> bool {
    &&& !readings.functional_complement.nan()
    &&& !readings.protection_complement.nan()
    &&& compilation.trust_region.max_quadratic_cost.at_most(Scalar { bits: 0 })
        || !readings.cost_quotient.nan()
    &&& !compilation.identity_margin.nan()
    &&& !compilation.trust_region.scale.nan()
}

/// The metrics that are reported are such as the shadow runner accepts: fractions
/// between zero and one, with a lower bound that does not exceed the score. Left
/// out is only what gives no number for a metric.
pub proof fn reported_metrics_pass_the_runner(
    compilation: CompilationModel,
    readings: ShadowReadings,
)
    requires
        metrics_are_numbers(compilation, readings),
    ensures
        ({
            let metrics = metrics_of(compilation, readings);
            &&& metrics.functional_score.is_unit_interval()
            &&& metrics.functional_ci_lower.is_unit_interval()
            &&& metrics.preservation_score.is_unit_interval()
            &&& metrics.identity_margin.is_unit_interval()
            &&& metrics.numerical_stability.is_unit_interval()
            &&& metrics.normalized_risk.is_unit_interval()
            &&& metrics.functional_ci_lower.at_most(metrics.functional_score)
        }),
{
    let one = Scalar { bits: ONE_BITS };
    lemma_one();
    lemma_magnitude_zero(ONE_BITS as int);
    assert(one.is_unit_interval());
    crate::scalar::clamping_lands_in_the_unit_interval(readings.functional_complement);
    crate::scalar::clamping_lands_in_the_unit_interval(readings.protection_complement);
    crate::scalar::clamping_lands_in_the_unit_interval(compilation.identity_margin);
    crate::scalar::clamping_lands_in_the_unit_interval(compilation.trust_region.scale);
    if !readings.cost_quotient.nan() {
        crate::scalar::clamping_lands_in_the_unit_interval(readings.cost_quotient);
    }
    let score = readings.functional_complement.clamped();
    let first = one.least(score);
    assert(first.is_unit_interval() && first.at_most(score));
    let second = first.least(compilation.correct_cosine.clamped());
    let third = second.least(compilation.decoder_loo_r2.clamped());
    let fourth = third.least(compilation.encoder_loo_r2.clamped());
    let fifth = fourth.least(compilation.decoder_min_loo_cosine.clamped());
    lemma_least_of_fractions(first, compilation.correct_cosine);
    lemma_least_of_fractions(second, compilation.decoder_loo_r2);
    lemma_least_of_fractions(third, compilation.encoder_loo_r2);
    lemma_least_of_fractions(fourth, compilation.decoder_min_loo_cosine);
    lemma_least_of_fractions(fifth, compilation.encoder_min_loo_cosine);
}

/// Who a trial is about.
#[derive(Debug)]
pub struct TrialSubject {
    pub receiver_id: String,
    pub receiver_family_id: String,
}

/// The model of a [`TrialSubject`].
pub struct SubjectModel {
    pub receiver_id: Seq<char>,
    pub receiver_family_id: Seq<char>,
}

impl View for TrialSubject {
    type V = SubjectModel;

    open spec fn view(&self) -> SubjectModel {
        SubjectModel {
            receiver_id: self.receiver_id@,
            receiver_family_id: self.receiver_family_id@,
        }
    }
}

/// The scores of a trial.
#[derive(Debug, Clone, Copy, PartialEq, Eq, Structural)]
pub struct TrialScores {
    pub target: Scalar,
    pub preservation: Scalar,
    pub wrong_ir: Scalar,
    pub random_delta: Scalar,
}

/// A trial of the given name.
pub open spec fn trial_named(
    trial_id: Seq<char>,
    capability_id: Seq<char>,
    subject: SubjectModel,
    seed: u64,
    calibration: bool,
    scores: TrialScores,
) -> TrialModel {
    TrialModel {
        schema: "cerebro.tidex.universality_trial/v1"@,
        trial_id,
        capability_id,
        receiver_id: subject.receiver_id,
        receiver_family_id: subject.receiver_family_id,
        seed,
        capability_was_calibration: calibration,
        receiver_was_calibration: calibration,
        target_optimizer_steps: 0,
        target_score: scores.target,
        preservation_score: scores.preservation,
        wrong_ir_score: scores.wrong_ir,
        random_delta_score: scores.random_delta,
        unmodified_receiver_score: Scalar { bits: 0 },
    }
}

fn trial(
    trial_id: String,
    capability_id: &str,
    subject: &TrialSubject,
    seed: u64,
    calibration: bool,
    scores: TrialScores,
) -> (trial: UniversalityTrial)
    ensures
        trial@ == trial_named(trial_id@, capability_id@, subject@, seed, calibration, scores),
{
    UniversalityTrial {
        schema: "cerebro.tidex.universality_trial/v1".to_owned(),
        trial_id,
        capability_id: capability_id.to_owned(),
        receiver_id: subject.receiver_id.clone(),
        receiver_family_id: subject.receiver_family_id.clone(),
        seed,
        capability_was_calibration: calibration,
        receiver_was_calibration: calibration,
        target_optimizer_steps: 0,
        target_score: scores.target,
        preservation_score: scores.preservation,
        wrong_ir_score: scores.wrong_ir,
        random_delta_score: scores.random_delta,
        unmodified_receiver_score: Scalar { bits: 0 },
    }
}

/// The trial of a suite for one capability, receiver and seed. Only the identity
/// serves for calibration.
pub open spec fn suite_trial(
    capability: SpecModel,
    subject: SubjectModel,
    seed: u64,
    functional_score: Scalar,
    preservation_score: Scalar,
    normalized_risk: Scalar,
    maximum_wrong_cosine: Scalar,
) -> TrialModel {
    trial_named(
        slug_text(subject.receiver_id) + "-"@ + slug_text(capability.id) + "-seed-"@ + decimal(
            seed as int,
        ),
        capability.id,
        subject,
        seed,
        capability.id == "state.identity:v1"@,
        TrialScores {
            target: functional_score,
            preservation: preservation_score,
            wrong_ir: maximum_wrong_cosine.clamped(),
            random_delta: normalized_risk,
        },
    )
}

/// The trial of a suite for one capability, receiver and seed, from what its
/// shadow evaluation reported and from its compilation.
pub fn universality_trial(
    capability: &CapabilitySpec,
    subject: &TrialSubject,
    seed: u64,
    metrics: ShadowMetrics,
    maximum_wrong_cosine: Scalar,
) -> (record: UniversalityTrial)
    ensures
        record@ == suite_trial(
            capability@,
            subject@,
            seed,
            metrics.functional_score,
            metrics.preservation_score,
            metrics.normalized_risk,
            maximum_wrong_cosine,
        ),
{
    let receiver = safe_slug(subject.receiver_id.as_str());
    let prefix = joined(receiver.as_str(), "-");
    let name = joined(prefix.as_str(), safe_slug(capability.id.as_str()).as_str());
    let trial_id = numbered(name.as_str(), "-seed-", seed);
    trial(
        trial_id,
        capability.id.as_str(),
        subject,
        seed,
        text_eq(capability.id.as_str(), "state.identity:v1"),
        TrialScores {
            target: metrics.functional_score,
            preservation: metrics.preservation_score,
            wrong_ir: maximum_wrong_cosine.clamp_unit(),
            random_delta: metrics.normalized_risk,
        },
    )
}

/// A name with dashes for its colons and dots.
pub open spec fn dashed(name: Seq<char>) -> Seq<char> {
    name.map_values(
        |c: char|
            if c == ':' || c == '.' {
                '-'
            } else {
                c
            },
    )
}

/// A name with dashes for its colons and dots.
fn dash_name(name: &str) -> (out: String)
    ensures
        out@ == dashed(name@),
{
    let chars = crate::text::chars_of(name);
    let mut out: Vec<char> = Vec::new();
    for i in 0..chars.len()
        invariant
            out@ == dashed(chars@.take(i as int)),
    {
        let c = chars[i];
        out.push(
            if c == ':' || c == '.' {
                '-'
            } else {
                c
            },
        );
        assert(chars@.take(i + 1) == chars@.take(i as int).push(c));
        assert(dashed(chars@.take(i + 1)) =~= dashed(chars@.take(i as int)).push(
            if c == ':' || c == '.' {
                '-'
            } else {
                c
            },
        ));
    }
    assert(chars@.take(chars@.len() as int) == chars@);
    crate::text::text_of(&out)
}

/// The evidence of a single run: a calibration trial and the trial itself, with
/// the same scores.
pub open spec fn single_run_evidence(
    capability: SpecModel,
    subject: SubjectModel,
    seed: u64,
    readings: ShadowReadings,
    maximum_wrong_cosine: Scalar,
) -> EvidenceInputModel {
    let scores = TrialScores {
        target: readings.functional_complement.clamped(),
        preservation: readings.protection_complement.clamped(),
        wrong_ir: maximum_wrong_cosine.clamped(),
        random_delta: readings.cost_quotient.clamped(),
    };
    let calibration = "calibration.linear:v1"@;
    EvidenceInputModel {
        schema: "cerebro.tidex.universality_evidence_input/v1"@,
        calibration_capabilities: seq![calibration],
        trials: seq![
            trial_named(
                subject.receiver_id + "-calibration-linear-seed-"@ + decimal(seed as int),
                calibration,
                subject,
                0,
                true,
                scores,
            ),
            trial_named(
                subject.receiver_id + "-"@ + dashed(capability.id) + "-seed-"@ + decimal(
                    seed as int,
                ),
                capability.id,
                subject,
                seed,
                false,
                scores,
            ),
        ],
        protocol: protocol_for(1, 2),
    }
}

/// The evidence of a single run, with the readings of [`universality_operands`].
pub fn universality_input(
    capability: &CapabilitySpec,
    subject: &TrialSubject,
    seed: u64,
    readings: ShadowReadings,
    maximum_wrong_cosine: Scalar,
) -> (input: UniversalityEvidenceInput)
    ensures
        input@ == single_run_evidence(
            capability@,
            subject@,
            seed,
            readings,
            maximum_wrong_cosine,
        ),
{
    let scores = TrialScores {
        target: readings.functional_complement.clamp_unit(),
        preservation: readings.protection_complement.clamp_unit(),
        wrong_ir: maximum_wrong_cosine.clamp_unit(),
        random_delta: readings.cost_quotient.clamp_unit(),
    };
    let receiver = subject.receiver_id.as_str();
    let first = numbered(receiver, "-calibration-linear-seed-", seed);
    let prefix = joined(receiver, "-");
    let name = joined(prefix.as_str(), dash_name(capability.id.as_str()).as_str());
    let second = numbered(name.as_str(), "-seed-", seed);
    let input = UniversalityEvidenceInput {
        schema: "cerebro.tidex.universality_evidence_input/v1".to_owned(),
        calibration_capabilities: vec!["calibration.linear:v1".to_owned()],
        trials: vec![
            trial(first, "calibration.linear:v1", subject, 0, true, scores),
            trial(second, capability.id.as_str(), subject, seed, false, scores),
        ],
        protocol: protocol(1, 2),
    };
    proof {
        let wanted = single_run_evidence(
            capability@,
            subject@,
            seed,
            readings,
            maximum_wrong_cosine,
        );
        assert(input@.calibration_capabilities =~= wanted.calibration_capabilities);
        assert(input@.trials =~= wanted.trials);
    }
    input
}

/// How many capabilities of a suite are held out: all but the identity, and at
/// least one.
pub open spec fn held_out_count(suite: Seq<SpecModel>) -> int
    decreases suite.len(),
{
    if suite.len() == 0 {
        0
    } else {
        held_out_count(suite.drop_last()) + (if suite.last().id == "state.identity:v1"@ {
            0int
        } else {
            1
        })
    }
}

/// A count, but at least the given one.
pub open spec fn at_least(count: int, least: int) -> int {
    if count < least {
        least
    } else {
        count
    }
}

/// How many held-out capabilities a suite has to support.
pub fn required_held_out(suite: &Vec<CapabilitySpec>) -> (count: usize)
    ensures
        count == at_least(held_out_count(views(suite@)), 1),
{
    let ghost models = views(suite@);
    let mut count: usize = 0;
    assert(models.take(0) == Seq::<SpecModel>::empty());
    for i in 0..suite.len()
        invariant
            models == views(suite@),
            count <= i,
            count == held_out_count(models.take(i as int)),
    {
        assert(models.take(i + 1).drop_last() == models.take(i as int));
        assert(models.take(i + 1).last() == suite@[i as int]@);
        if !text_eq(suite[i].id.as_str(), "state.identity:v1") {
            count = count + 1;
        }
    }
    assert(models.take(models.len() as int) == models);
    if count < 1 {
        1
    } else {
        count
    }
}

/// The protocol that a suite is judged by.
pub fn suite_protocol(suite: &Vec<CapabilitySpec>, seeds: &Vec<u64>) -> (record:
    UniversalityProtocol)
    ensures
        record@ == protocol_for(
            at_least(held_out_count(views(suite@)), 1),
            at_least(seeds@.len() as int, 2),
        ),
{
    let seed_count: usize = if seeds.len() < 2 {
        2
    } else {
        seeds.len()
    };
    protocol(required_held_out(suite), seed_count)
}

/// The evidence of a suite: its trials, with the identity for calibration.
pub fn suite_evidence(
    trials: Vec<UniversalityTrial>,
    suite: &Vec<CapabilitySpec>,
    seeds: &Vec<u64>,
) -> (input: UniversalityEvidenceInput)
    ensures
        input@ == (EvidenceInputModel {
            schema: "cerebro.tidex.universality_evidence_input/v1"@,
            calibration_capabilities: seq!["state.identity:v1"@],
            trials: views(trials@),
            protocol: protocol_for(
                at_least(held_out_count(views(suite@)), 1),
                at_least(seeds@.len() as int, 2),
            ),
        }),
{
    let calibration_capabilities = vec!["state.identity:v1".to_owned()];
    assert(views(calibration_capabilities@) =~= seq!["state.identity:v1"@]);
    UniversalityEvidenceInput {
        schema: "cerebro.tidex.universality_evidence_input/v1".to_owned(),
        calibration_capabilities,
        trials,
        protocol: suite_protocol(suite, seeds),
    }
}

/// The directory of a seed: its number with at least four digits.
pub open spec fn seed_directory_text(seed: u64) -> Seq<char> {
    let digits = decimal(seed as int);
    let zeros = if digits.len() >= 4 {
        ""@
    } else if digits.len() == 3 {
        "0"@
    } else if digits.len() == 2 {
        "00"@
    } else {
        "000"@
    };
    "seed-"@ + zeros + digits
}

/// The directory of a seed.
pub fn seed_directory(seed: u64) -> (name: String)
    ensures
        name@ == seed_directory_text(seed),
{
    let digits = decimal_text(seed);
    let length: usize = crate::text::chars_of(digits.as_str()).len();
    let zeros = if length >= 4 {
        ""
    } else if length == 3 {
        "0"
    } else if length == 2 {
        "00"
    } else {
        "000"
    };
    let prefix = joined("seed-", zeros);
    joined(prefix.as_str(), digits.as_str())
}

/// A receiver request names the model, the architecture and the tensor that it was
/// asked for, each in its own field; an unusable model name is refused before an
/// unusable architecture name.
pub proof fn receiver_requests_name_what_they_are_for(
    model_id: Result<Seq<char>, ErrorView>,
    architecture_id: Result<Seq<char>, ErrorView>,
    tensor_id: Seq<char>,
)
    ensures
        receiver_request_outcome(model_id, architecture_id, tensor_id) matches Ok(request) ==> {
            &&& model_id == Ok::<_, ErrorView>(request.model_id)
            &&& architecture_id == Ok::<_, ErrorView>(request.architecture_id)
            &&& request.materialization_tensors == seq![tensor_id]
            &&& request.supported_strategies.contains(MaterializationStrategy::DenseDelta)
            &&& request.supported_strategies.contains(MaterializationStrategy::SparseDelta)
            &&& request.supported_strategies.len() == 2
            &&& !request.supports_persistent_state
            &&& request.architecture is Unknown
        },
        receiver_request_outcome(model_id, architecture_id, tensor_id) is Ok <==> model_id is Ok
            && architecture_id is Ok,
        model_id matches Err(error) ==> receiver_request_outcome(
            model_id,
            architecture_id,
            tensor_id,
        ) == Err::<RequestModel, _>(error),
        model_id is Ok && architecture_id is Err ==> receiver_request_outcome(
            model_id,
            architecture_id,
            tensor_id,
        ) == Err::<RequestModel, _>(architecture_id->Err_0),
{
    if model_id is Ok && architecture_id is Ok {
        let request = receiver_request_outcome(model_id, architecture_id, tensor_id)->Ok_0;
        assert(request.supported_strategies[0] == MaterializationStrategy::DenseDelta);
        assert(request.supported_strategies[1] == MaterializationStrategy::SparseDelta);
    }
}

proof fn lemma_decimals_are_told_apart(a: u64, b: u64)
    requires
        a != b,
    ensures
        decimal(a as int) != decimal(b as int),
{
    crate::text::decimal_reads_back(a);
    crate::text::decimal_reads_back(b);
}

proof fn lemma_suffixes_are_told_apart(prefix: Seq<char>, a: Seq<char>, b: Seq<char>)
    requires
        a != b,
    ensures
        prefix + a != prefix + b,
{
    if prefix + a == prefix + b {
        assert((prefix + a).skip(prefix.len() as int) == a);
        assert((prefix + b).skip(prefix.len() as int) == b);
    }
}

/// The probes of one seed are told apart by their trials and by the texts that stand
/// for their inputs and outputs, all probe one capability, and their seeds are ten
/// thousand for each seed of the run and one for each probe, as far as seeds reach.
pub proof fn probes_are_told_apart(capability: SpecModel, seed: u64, index: u64, other: u64)
    ensures
        probe_of(capability, seed, index).probe_id == capability.id,
        seed * 10000 + index <= u64::MAX ==> probe_of(capability, seed, index).seed == seed * 10000
            + index,
        seed * 10000 + index > u64::MAX ==> probe_of(capability, seed, index).seed == u64::MAX,
        index != other ==> {
            let one = probe_of(capability, seed, index);
            let two = probe_of(capability, seed, other);
            one.trial_id != two.trial_id && one.input_text != two.input_text && one.output_text
                != two.output_text
        },
        capability.id.is_prefix_of(probe_of(capability, seed, index).input_text),
        capability.id.is_prefix_of(probe_of(capability, seed, index).output_text),
        probe_of(capability, seed, index).input_text != probe_of(
            capability,
            seed,
            index,
        ).output_text,
{
    let operator = capability.operator.operator_text();
    let digits = decimal(seed as int);
    if index != other {
        lemma_decimals_are_told_apart(index, other);
        let (a, b) = (decimal(index as int), decimal(other as int));
        lemma_suffixes_are_told_apart(operator + "-seed-"@ + digits + "-probe-"@, a, b);
        lemma_suffixes_are_told_apart(capability.id + "-probe-input-"@ + digits + "-"@, a, b);
        lemma_suffixes_are_told_apart(capability.id + "-probe-output-"@ + digits + "-"@, a, b);
    }
    let probe = probe_of(capability, seed, index);
    assert(probe.input_text.take(capability.id.len() as int) == capability.id);
    assert(probe.output_text.take(capability.id.len() as int) == capability.id);
    reveal_strlit("-probe-input-");
    reveal_strlit("-probe-output-");
    let n = capability.id.len() as int;
    assert(probe.input_text[n + 7] == "-probe-input-"@[7]);
    assert(probe.output_text[n + 7] == "-probe-output-"@[7]);
}

/// Whether a tensor comes before another in the choice of one to work on: by the
/// family of its name, then by its size, then by its name.
pub open spec fn preferred(one: ItemModel, other: ItemModel) -> bool {
    ||| family_rank(one.tensor_id) < family_rank(other.tensor_id)
    ||| family_rank(one.tensor_id) == family_rank(other.tensor_id) && one.element_count
        < other.element_count
    ||| family_rank(one.tensor_id) == family_rank(other.tensor_id) && one.element_count
        == other.element_count && key_less(text_key(one.tensor_id), text_key(other.tensor_id))
}

proof fn lemma_keys_go_by_preference(one: ItemModel, other: ItemModel)
    ensures
        key_less(one.key(), other.key()) <==> preferred(one, other),
{
    let (a, b) = (one.key(), other.key());
    assert(a[0] == family_rank(one.tensor_id) && a[1] == one.element_count);
    assert(b[0] == family_rank(other.tensor_id) && b[1] == other.element_count);
    assert(a.skip(1)[0] == a[1] && b.skip(1)[0] == b[1]);
    assert(a.skip(1).skip(1) == text_key(one.tensor_id));
    assert(b.skip(1).skip(1) == text_key(other.tensor_id));
    reveal_with_fuel(key_less, 3);
}

/// The tensor to work on is one that can be written and holds from four to 4096
/// numbers, and no other such tensor is preferred to it. There is none only where
/// no tensor qualifies.
pub proof fn no_tensor_is_preferred_to_the_chosen_one(inventory: InventoryModel)
    ensures
        match selection_outcome(Ok(inventory)) {
            Ok(id) => exists|best: int|
                {
                    &&& 0 <= best < inventory.tensors.len()
                    &&& (#[trigger] inventory.tensors[best]).tensor_id == id
                    &&& inventory.tensors[best].materializable
                    &&& 4 <= inventory.tensors[best].element_count <= 4096
                    &&& forall|i: int|
                        0 <= i < inventory.tensors.len() && (
                        #[trigger] inventory.tensors[i]).materializable && 4
                            <= inventory.tensors[i].element_count <= 4096 ==> !preferred(
                            inventory.tensors[i],
                            inventory.tensors[best],
                        )
                },
            Err(error) => error == PrepareErrorView::Message("suite_no_small_materializable_tensor"@)
                && forall|i: int|
                0 <= i < inventory.tensors.len() && (#[trigger] inventory.tensors[i]).materializable
                    ==> !(4 <= inventory.tensors[i].element_count <= 4096),
        },
{
    chosen_tensor_is_the_least_eligible_one(inventory);
    if selection_outcome(Ok(inventory)) is Ok {
        let id = selection_outcome(Ok(inventory))->Ok_0;
        let best = choose|best: int|
            {
                &&& 0 <= best < inventory.tensors.len()
                &&& (#[trigger] inventory.tensors[best]).tensor_id == id
                &&& eligible(inventory.tensors[best])
                &&& forall|i: int|
                    0 <= i < inventory.tensors.len() && eligible(#[trigger] inventory.tensors[i])
                        ==> !key_less(inventory.tensors[i].key(), inventory.tensors[best].key())
            };
        assert forall|i: int|
            0 <= i < inventory.tensors.len() && (#[trigger] inventory.tensors[i]).materializable && 4
                <= inventory.tensors[i].element_count <= 4096 implies !preferred(
            inventory.tensors[i],
            inventory.tensors[best],
        ) by {
            assert(eligible(inventory.tensors[i]));
            lemma_keys_go_by_preference(inventory.tensors[i], inventory.tensors[best]);
        }
    } else {
        assert forall|i: int|
            0 <= i < inventory.tensors.len() && (
            #[trigger] inventory.tensors[i]).materializable implies !(4
            <= inventory.tensors[i].element_count <= 4096) by {
            assert(!eligible(inventory.tensors[i]));
        }
    }
}

/// A solution starts with the scaled numbers, four of them at most, and is zero
/// after them.
pub proof fn solutions_hold_four_numbers(scaled: Seq<Scalar>, dimension: nat, i: int)
    requires
        0 <= i < dimension,
    ensures
        solution_of(scaled, dimension).len() == dimension,
        i < 4 && i < scaled.len() ==> solution_of(scaled, dimension)[i] == scaled[i],
        i >= 4 || i >= scaled.len() ==> solution_of(scaled, dimension)[i].bits == 0,
{
}

/// The metrics that are reported are those of the compilation, each under its own
/// name and brought into the unit interval. The lower end of the confidence interval
/// is at most one, at most each of the six numbers that speak for the function, and
/// is one of these seven; the risk is one wherever no cost is allowed.
pub proof fn metrics_report_the_compilation(compilation: CompilationModel, readings: ShadowReadings)
    ensures
        ({
            let metrics = metrics_of(compilation, readings);
            &&& metrics.functional_score == readings.functional_complement.clamped()
            &&& metrics.preservation_score == readings.protection_complement.clamped()
            &&& metrics.identity_margin == compilation.identity_margin.clamped()
            &&& metrics.numerical_stability == compilation.trust_region.scale.clamped()
            &&& compilation.trust_region.max_quadratic_cost.at_most(Scalar { bits: 0 })
                ==> metrics.normalized_risk.bits == 0x3FF0_0000_0000_0000
            &&& !compilation.trust_region.max_quadratic_cost.at_most(Scalar { bits: 0 })
                ==> metrics.normalized_risk == readings.cost_quotient.clamped()
        }),
        ({
            let lower = metrics_of(compilation, readings).functional_ci_lower;
            let bounds = seq![
                Scalar { bits: 0x3FF0_0000_0000_0000 },
                readings.functional_complement.clamped(),
                compilation.correct_cosine.clamped(),
                compilation.decoder_loo_r2.clamped(),
                compilation.encoder_loo_r2.clamped(),
                compilation.decoder_min_loo_cosine.clamped(),
                compilation.encoder_min_loo_cosine.clamped(),
            ];
            &&& !lower.nan()
            &&& bounds.contains(lower)
            &&& forall|i: int|
                0 <= i < bounds.len() ==> (#[trigger] bounds[i]).nan() || lower.at_most(bounds[i])
        }),
{
    let one = Scalar { bits: 0x3FF0_0000_0000_0000 };
    lemma_one();
    let bounds = seq![
        one,
        readings.functional_complement.clamped(),
        compilation.correct_cosine.clamped(),
        compilation.decoder_loo_r2.clamped(),
        compilation.encoder_loo_r2.clamped(),
        compilation.decoder_min_loo_cosine.clamped(),
        compilation.encoder_min_loo_cosine.clamped(),
    ];
    let lower = metrics_of(compilation, readings).functional_ci_lower;
    assert(bounds[0] == one);
    assert(bounds[1] == readings.functional_complement.clamped());
    assert(bounds[2] == compilation.correct_cosine.clamped());
    assert(bounds[3] == compilation.decoder_loo_r2.clamped());
    assert(bounds[4] == compilation.encoder_loo_r2.clamped());
    assert(bounds[5] == compilation.decoder_min_loo_cosine.clamped());
    assert(bounds[6] == compilation.encoder_min_loo_cosine.clamped());
    assert(lower == one.least(bounds[1]).least(bounds[2]).least(bounds[3]).least(bounds[4]).least(
        bounds[5],
    ).least(bounds[6]));
    assert(bounds[0] == lower || bounds[1] == lower || bounds[2] == lower || bounds[3] == lower
        || bounds[4] == lower || bounds[5] == lower || bounds[6] == lower);
}

/// What the readings are computed from are the error of the function, the damage to
/// what is protected and the accepted cost, over the cost that is given.
pub proof fn operands_are_those_of_the_compilation(
    compilation: CompilationModel,
    maximum_cost: Scalar,
)
    ensures
        ({
            let operands = operands_over(compilation, maximum_cost);
            &&& operands.functional_error == compilation.functional_relative_error
            &&& operands.protection_damage == compilation.protection_damage_ratio
            &&& operands.accepted_cost == compilation.trust_region.accepted_quadratic_cost
            &&& operands.maximum_cost == maximum_cost
        }),
{
}

/// A trial of a suite belongs to its capability, its receiver and its seed, counts as
/// calibration exactly where the capability is the identity, and reports every score
/// under its own name. Trials of one receiver and capability with different seeds
/// have different names.
pub proof fn suite_trials_report_their_case(
    capability: SpecModel,
    subject: SubjectModel,
    seed: u64,
    other_seed: u64,
    metrics: ShadowMetrics,
    maximum_wrong_cosine: Scalar,
)
    ensures
        ({
            let trial = suite_trial(
                capability,
                subject,
                seed,
                metrics.functional_score,
                metrics.preservation_score,
                metrics.normalized_risk,
                maximum_wrong_cosine,
            );
            let other = suite_trial(
                capability,
                subject,
                other_seed,
                metrics.functional_score,
                metrics.preservation_score,
                metrics.normalized_risk,
                maximum_wrong_cosine,
            );
            &&& trial.capability_id == capability.id
            &&& trial.receiver_id == subject.receiver_id
            &&& trial.receiver_family_id == subject.receiver_family_id
            &&& trial.seed == seed
            &&& trial.capability_was_calibration <==> capability.id == "state.identity:v1"@
            &&& trial.receiver_was_calibration <==> capability.id == "state.identity:v1"@
            &&& trial.target_optimizer_steps == 0
            &&& trial.target_score == metrics.functional_score
            &&& trial.preservation_score == metrics.preservation_score
            &&& trial.random_delta_score == metrics.normalized_risk
            &&& trial.wrong_ir_score == maximum_wrong_cosine.clamped()
            &&& trial.unmodified_receiver_score.bits == 0
            &&& slug_text(subject.receiver_id).is_prefix_of(trial.trial_id)
            &&& seed != other_seed ==> trial.trial_id != other.trial_id
        }),
{
    let prefix = slug_text(subject.receiver_id) + "-"@ + slug_text(capability.id) + "-seed-"@;
    if seed != other_seed {
        lemma_decimals_are_told_apart(seed, other_seed);
        lemma_suffixes_are_told_apart(prefix, decimal(seed as int), decimal(other_seed as int));
    }
    let slug = slug_text(subject.receiver_id);
    assert((prefix + decimal(seed as int)).take(slug.len() as int) == slug);
}

/// A single run counts two trials of one receiver with the same scores: a calibration
/// under the calibration's own name with seed zero, and the capability itself, held
/// out, with the seed of the run.
pub proof fn single_runs_hold_their_capability_out(
    capability: SpecModel,
    subject: SubjectModel,
    seed: u64,
    readings: ShadowReadings,
    maximum_wrong_cosine: Scalar,
)
    ensures
        ({
            let evidence = single_run_evidence(
                capability,
                subject,
                seed,
                readings,
                maximum_wrong_cosine,
            );
            let calibration = evidence.trials[0];
            let held_out = evidence.trials[1];
            &&& evidence.trials.len() == 2
            &&& evidence.calibration_capabilities == seq![calibration.capability_id]
            &&& calibration.capability_id == "calibration.linear:v1"@
            &&& calibration.seed == 0
            &&& calibration.capability_was_calibration && calibration.receiver_was_calibration
            &&& held_out.capability_id == capability.id
            &&& held_out.seed == seed
            &&& !held_out.capability_was_calibration && !held_out.receiver_was_calibration
            &&& evidence.protocol.minimum_held_out_capabilities == 1
            &&& evidence.protocol.minimum_seeds_per_capability == 2
            &&& forall|i: int|
                0 <= i < 2 ==> {
                    let trial = #[trigger] evidence.trials[i];
                    &&& trial.receiver_id == subject.receiver_id
                    &&& trial.receiver_family_id == subject.receiver_family_id
                    &&& trial.target_score == readings.functional_complement.clamped()
                    &&& trial.preservation_score == readings.protection_complement.clamped()
                    &&& trial.random_delta_score == readings.cost_quotient.clamped()
                    &&& trial.wrong_ir_score == maximum_wrong_cosine.clamped()
                    &&& trial.unmodified_receiver_score.bits == 0
                    &&& trial.target_optimizer_steps == 0
                }
        }),
{
    let evidence = single_run_evidence(capability, subject, seed, readings, maximum_wrong_cosine);
    assert(evidence.trials[0] == evidence.trials[0] && evidence.trials[1] == evidence.trials[1]);
}

/// The held-out capabilities of a suite are all but the identities: joining suites
/// adds their counts, and a single capability counts unless it is the identity.
pub proof fn all_but_the_identity_are_held_out(
    suite: Seq<SpecModel>,
    more: Seq<SpecModel>,
    one: SpecModel,
)
    ensures
        held_out_count(suite + more) == held_out_count(suite) + held_out_count(more),
        held_out_count(seq![one]) == (if one.id == "state.identity:v1"@ {
            0int
        } else {
            1
        }),
        0 <= held_out_count(suite) <= suite.len(),
    decreases suite.len() + more.len(),
{
    if more.len() == 0 {
        assert(suite + more == suite);
        if suite.len() > 0 {
            all_but_the_identity_are_held_out(suite.drop_last(), more, one);
        }
    } else {
        assert((suite + more).drop_last() == suite + more.drop_last());
        all_but_the_identity_are_held_out(suite, more.drop_last(), one);
    }
    assert(seq![one].drop_last() =~= Seq::<SpecModel>::empty());
    assert(held_out_count(Seq::<SpecModel>::empty()) == 0);
}

/// A digest is read from the member of that name, and where there is none the error
/// says which was missing.
pub proof fn digests_are_read_from_their_members(value: JsonTree, field: Seq<char>)
    ensures
        member(value, field) matches Some(tree) ==> digest_member(value, field) == Ok::<
            _,
            PrepareErrorView,
        >(tree),
        member(value, field) is None ==> digest_member(value, field) == Err::<JsonTree, _>(
            PrepareErrorView::Message("missing digest field: "@ + field),
        ),
{
}

/// The directory of a seed is its number behind `seed-`, with as many zeros in front as
/// make four digits: what stands behind the prefix reads back as the seed, so no two
/// seeds share a directory.
pub proof fn seed_directories_read_back(seed: u64, other: u64)
    ensures
        seed_directory_text(seed).len() >= 9,
        decimal(seed as int).len() <= 4 ==> seed_directory_text(seed).len() == 9,
        decimal(seed as int).len() > 4 ==> seed_directory_text(seed) == "seed-"@ + decimal(
            seed as int,
        ),
        seed_directory_text(seed).take(5) == "seed-"@,
        crate::text::numeral_u64(seed_directory_text(seed).skip(5)) == Some(seed),
        seed_directory_text(seed) == seed_directory_text(other) ==> seed == other,
{
    lemma_seed_directory(seed);
    lemma_seed_directory(other);
}

proof fn lemma_seed_directory(seed: u64)
    ensures
        seed_directory_text(seed).len() >= 9,
        decimal(seed as int).len() <= 4 ==> seed_directory_text(seed).len() == 9,
        decimal(seed as int).len() > 4 ==> seed_directory_text(seed) == "seed-"@ + decimal(
            seed as int,
        ),
        seed_directory_text(seed).take(5) == "seed-"@,
        crate::text::numeral_u64(seed_directory_text(seed).skip(5)) == Some(seed),
{
    reveal_strlit("seed-");
    reveal_strlit("");
    reveal_strlit("0");
    reveal_strlit("00");
    reveal_strlit("000");
    let digits = decimal(seed as int);
    let name = seed_directory_text(seed);
    crate::text::decimal_reads_back(seed);
    crate::text::leading_zeros_change_nothing(seq!['0'], seed);
    crate::text::leading_zeros_change_nothing(digits, seed);
    let one = seq!['0'] + digits;
    crate::text::leading_zeros_change_nothing(one, seed);
    let two = seq!['0'] + one;
    crate::text::leading_zeros_change_nothing(two, seed);
    let three = seq!['0'] + two;
    assert(name.take(5) =~= "seed-"@);
    if digits.len() >= 4 {
        assert(name.skip(5) =~= digits);
        assert(name =~= "seed-"@ + digits);
    } else if digits.len() == 3 {
        assert(name.skip(5) =~= one);
    } else if digits.len() == 2 {
        assert(name.skip(5) =~= two);
    } else {
        assert(name.skip(5) =~= three);
    }
}

} // verus!
