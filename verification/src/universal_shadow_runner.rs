//! The shadow runner: from an evaluation bundle to the metrics that its own
//! documents report.
//!
//! The runner never computes a metric and never adds a control. It reads what
//! the evaluation document states, refuses what is missing or out of range, and
//! joins the controls that the three documents of a bundle name.

use crate::controls::{parse_control_name, ComparativeControl, ControlSet};
use crate::error::{BrainError, BrainResult, ErrorView};
use crate::identity::Sha256Digest;
use crate::json::{
    double_of, json_text, member, optional_tree, parse_json, unsigned_of, Json, JsonTree,
};
use crate::order::{awaited, outcome, plain};
use crate::paths::{FilePath, PartModel, PathModel, PathPart};
use crate::receiver_profile::MaterializationStrategy;
use crate::scalar::Scalar;
use crate::text::{joined, text_eq};
use vstd::prelude::*;

verus! {

/// The largest bundle that is read.
pub const MAX_INPUT_BYTES: u64 = 268_435_456;

/// The most controls that one list may name.
pub const MAX_EXPLICIT_CONTROLS: usize = 64;

/// A fraction that a document must report.
pub open spec fn probability_outcome(value: Option<JsonTree>, field: Seq<char>) -> Result<
    Scalar,
    ErrorView,
> {
    match value {
        None => Err(ErrorView::Invalid("shadow_runner_metric_missing:"@ + field)),
        Some(tree) => match double_of(tree) {
            None => Err(ErrorView::Invalid("shadow_runner_metric_invalid:"@ + field)),
            Some(number) => if number.is_unit_interval() {
                Ok(number)
            } else {
                Err(ErrorView::Invalid("shadow_runner_metric_out_of_range:"@ + field))
            },
        },
    }
}

/// Reads a fraction between zero and one.
pub fn parse_probability(value: Option<&Json>, field: &str) -> (number: BrainResult<Scalar>)
    ensures
        plain(number) == probability_outcome(optional_tree(value), field@),
{
    match value {
        None => Err(BrainError::Invalid(joined("shadow_runner_metric_missing:", field))),
        Some(json) => match json.as_double() {
            None => Err(BrainError::Invalid(joined("shadow_runner_metric_invalid:", field))),
            Some(number) => if number.in_unit_interval() {
                Ok(number)
            } else {
                Err(BrainError::Invalid(joined("shadow_runner_metric_out_of_range:", field)))
            },
        },
    }
}

/// The unsigned integer that a number denotes, written as an integer or as a
/// double without a fraction.
pub open spec fn count_of(tree: JsonTree) -> Option<u64> {
    match unsigned_of(tree) {
        Some(n) => Some(n),
        None => match double_of(tree) {
            Some(x) => if x.is_whole_u64() {
                Some(x.whole_u64() as u64)
            } else {
                None
            },
            None => None,
        },
    }
}

/// The unsigned integer that a number denotes.
pub fn parse_u64_value(value: &Json) -> (count: Option<u64>)
    ensures
        count == count_of(value@),
{
    if let Some(n) = value.as_unsigned() {
        return Some(n);
    }
    match value.as_double() {
        Some(x) => x.to_whole_u64(),
        None => None,
    }
}

/// A positive count that a document must report.
pub open spec fn count_outcome(value: Option<JsonTree>, field: Seq<char>) -> Result<u64, ErrorView> {
    match value {
        None => Err(ErrorView::Invalid("shadow_runner_u64_missing:"@ + field)),
        Some(tree) => match count_of(tree) {
            None => Err(ErrorView::Invalid("shadow_runner_u64_invalid:"@ + field)),
            Some(n) => if n == 0 {
                Err(ErrorView::Invalid("shadow_runner_u64_out_of_range:"@ + field))
            } else {
                Ok(n)
            },
        },
    }
}

/// Reads a positive count.
pub fn parse_u64_signal(value: Option<&Json>, field: &str) -> (count: BrainResult<u64>)
    ensures
        plain(count) == count_outcome(optional_tree(value), field@),
{
    match value {
        None => Err(BrainError::Invalid(joined("shadow_runner_u64_missing:", field))),
        Some(json) => match parse_u64_value(json) {
            None => Err(BrainError::Invalid(joined("shadow_runner_u64_invalid:", field))),
            Some(n) => if n == 0 {
                Err(BrainError::Invalid(joined("shadow_runner_u64_out_of_range:", field)))
            } else {
                Ok(n)
            },
        },
    }
}

/// The control that an item of a list names.
pub open spec fn control_outcome(item: JsonTree) -> Result<ComparativeControl, ErrorView> {
    match item {
        JsonTree::Text(name) => if exists|c: ComparativeControl| #[trigger] c.wire_name() == name {
            Ok(choose|c: ComparativeControl| #[trigger] c.wire_name() == name)
        } else {
            Err(ErrorView::Invalid("shadow_runner_control_unknown"@))
        },
        _ => Err(ErrorView::Invalid("shadow_runner_control_invalid"@)),
    }
}

/// The controls that a list names, or the error of the first item that names
/// none.
pub open spec fn controls_named(items: Seq<JsonTree>) -> Result<
    Seq<ComparativeControl>,
    ErrorView,
>
    decreases items.len(),
{
    if items.len() == 0 {
        Ok(Seq::empty())
    } else {
        match controls_named(items.drop_last()) {
            Err(error) => Err(error),
            Ok(front) => match control_outcome(items.last()) {
                Err(error) => Err(error),
                Ok(control) => Ok(front.push(control)),
            },
        }
    }
}

/// The controls that an optional list states.
pub open spec fn controls_outcome(value: Option<JsonTree>, required: bool) -> Result<
    Set<ComparativeControl>,
    ErrorView,
> {
    match value {
        None => if required {
            Err(ErrorView::Invalid("shadow_runner_controls_missing"@))
        } else {
            Ok(Set::empty())
        },
        Some(JsonTree::Array(items)) => if items.len() == 0 || items.len()
            > MAX_EXPLICIT_CONTROLS {
            Err(ErrorView::Invalid("shadow_runner_controls_cardinality_invalid"@))
        } else {
            match controls_named(items) {
                Err(error) => Err(error),
                Ok(controls) => if controls.no_duplicates() {
                    Ok(controls.to_set())
                } else {
                    Err(ErrorView::Invalid("shadow_runner_control_duplicate"@))
                },
            }
        },
        Some(_) => Err(ErrorView::Invalid("shadow_runner_controls_invalid"@)),
    }
}

proof fn lemma_unnamed_item_persists(items: Seq<JsonTree>, n: int)
    requires
        0 <= n <= items.len(),
        controls_named(items.take(n)) is Err,
    ensures
        controls_named(items) == controls_named(items.take(n)),
    decreases items.len() - n,
{
    if n == items.len() {
        assert(items.take(n) == items);
    } else {
        assert(items.take(n + 1).drop_last() == items.take(n));
        lemma_unnamed_item_persists(items, n + 1);
    }
}

/// Names one control.
fn control_of(item: &Json) -> (control: BrainResult<ComparativeControl>)
    ensures
        plain(control) == control_outcome(item@),
{
    match item.as_text() {
        None => Err(BrainError::invalid("shadow_runner_control_invalid")),
        Some(name) => match parse_control_name(name) {
            None => Err(BrainError::invalid("shadow_runner_control_unknown")),
            Some(control) => {
                proof {
                    let chosen = choose|c: ComparativeControl| #[trigger] c.wire_name() == name@;
                    crate::controls::control_names_are_unambiguous(control, chosen);
                }
                Ok(control)
            },
        },
    }
}

proof fn lemma_more_controls(seen: Seq<ComparativeControl>, control: ComparativeControl)
    ensures
        seen.push(control).to_set() == seen.to_set().insert(control),
        seen.push(control).no_duplicates() <==> seen.no_duplicates() && !seen.contains(control),
{
    let more = seen.push(control);
    assert forall|x: ComparativeControl| more.to_set().contains(x) <==> seen.to_set().insert(
        control,
    ).contains(x) by {
        if seen.contains(x) {
            let k = choose|k: int| 0 <= k < seen.len() && seen[k] == x;
            assert(more[k] == x);
        }
        if x == control {
            assert(more[seen.len() as int] == x);
        }
    }
    assert(more.to_set() =~= seen.to_set().insert(control));
    if more.no_duplicates() {
        assert forall|i: int, j: int| 0 <= i < seen.len() && 0 <= j < seen.len() && i
            != j implies seen[i] != seen[j] by {
            assert(more[i] == seen[i] && more[j] == seen[j]);
        }
        if seen.contains(control) {
            let k = choose|k: int| 0 <= k < seen.len() && seen[k] == control;
            assert(more[k] == more[seen.len() as int]);
        }
    }
}

/// Reads an optional list of controls.
pub fn parse_comparative_controls(value: Option<&Json>, required: bool) -> (controls: BrainResult<
    ControlSet,
>)
    ensures
        outcome(controls) == controls_outcome(optional_tree(value), required),
{
    let json = match value {
        None => {
            if required {
                return Err(BrainError::invalid("shadow_runner_controls_missing"));
            }
            return Ok(ControlSet::new());
        },
        Some(json) => json,
    };
    let items = match json {
        Json::Array(items) => items,
        _ => {
            return Err(BrainError::invalid("shadow_runner_controls_invalid"));
        },
    };
    let ghost trees = json@->Array_0;
    if items.len() == 0 || items.len() > MAX_EXPLICIT_CONTROLS {
        return Err(BrainError::invalid("shadow_runner_controls_cardinality_invalid"));
    }
    let ghost mut seen = Seq::<ComparativeControl>::empty();
    let mut controls = ControlSet::new();
    let mut repeated = false;
    assert(trees.take(0) == Seq::<JsonTree>::empty());
    assert(seen.to_set() =~= Set::empty());
    for i in 0..items.len()
        invariant
            *json == Json::Array(*items),
            trees == json@->Array_0,
            optional_tree(value) == Some(json@),
            0 < items.len() <= MAX_EXPLICIT_CONTROLS,
            controls_named(trees.take(i as int)) == Ok::<_, ErrorView>(seen),
            controls@ == seen.to_set(),
            repeated == !seen.no_duplicates(),
    {
        assert(trees.take(i + 1).drop_last() == trees.take(i as int));
        assert(trees.take(i + 1).last() == items@[i as int]@);
        match control_of(&items[i]) {
            Err(error) => {
                proof {
                    lemma_unnamed_item_persists(trees, i + 1);
                }
                return Err(error);
            },
            Ok(control) => {
                if controls.contains(&control) {
                    repeated = true;
                }
                proof {
                    lemma_more_controls(seen, control);
                    seen = seen.push(control);
                }
                controls = controls.with(control);
            },
        }
    }
    assert(trees.take(trees.len() as int) == trees);
    if repeated {
        return Err(BrainError::invalid("shadow_runner_control_duplicate"));
    }
    Ok(controls)
}

/// The first of two optional values that is there.
pub open spec fn either(first: Option<JsonTree>, second: Option<JsonTree>) -> Option<JsonTree> {
    match first {
        Some(tree) => Some(tree),
        None => second,
    }
}

/// The member of an optional tree.
pub open spec fn member_of(tree: Option<JsonTree>, name: Seq<char>) -> Option<JsonTree> {
    match tree {
        Some(tree) => member(tree, name),
        None => None,
    }
}

/// The controls that the own list of a document states.
pub open spec fn own_list(payload: JsonTree) -> Option<JsonTree> {
    either(member(payload, "completed_controls"@), member(payload, "controls"@))
}

/// The list of controls in the metrics of a document.
pub open spec fn metrics_list(payload: JsonTree) -> Option<JsonTree> {
    match member(payload, "metrics"@) {
        Some(metrics) => own_list(metrics),
        None => None,
    }
}

/// The list of controls in the evidence of a document.
pub open spec fn evidence_list(payload: JsonTree) -> Option<JsonTree> {
    member_of(member(payload, "evidence"@), "comparative_controls"@)
}

/// The controls that a document states in its metrics, itself and its evidence.
pub open spec fn payload_controls(payload: JsonTree, required: bool) -> Result<
    Set<ComparativeControl>,
    ErrorView,
> {
    match controls_outcome(metrics_list(payload), false) {
        Err(error) => Err(error),
        Ok(reported) => match controls_outcome(
            own_list(payload),
            required && reported == Set::<ComparativeControl>::empty(),
        ) {
            Err(error) => Err(error),
            Ok(own) => match controls_outcome(evidence_list(payload), false) {
                Err(error) => Err(error),
                Ok(evidence) => Ok(reported.union(own).union(evidence)),
            },
        },
    }
}

/// Of two optional members, the first that is there.
fn either_of<'a>(json: &'a Json, first: &str, second: &str) -> (found: Option<&'a Json>)
    ensures
        optional_tree(found) == either(member(json@, first@), member(json@, second@)),
{
    match json.get(first) {
        Some(found) => Some(found),
        None => json.get(second),
    }
}

/// Reads the controls that a document states.
pub fn controls_from_payload(payload: &Json, required: bool) -> (controls: BrainResult<ControlSet>)
    ensures
        outcome(controls) == payload_controls(payload@, required),
{
    let reported = match payload.get("metrics") {
        Some(metrics) => parse_comparative_controls(
            either_of(metrics, "completed_controls", "controls"),
            false,
        )?,
        None => ControlSet::new(),
    };
    let own = parse_comparative_controls(
        either_of(payload, "completed_controls", "controls"),
        required && reported.is_empty(),
    )?;
    let list = match payload.get("evidence") {
        Some(evidence) => evidence.get("comparative_controls"),
        None => None,
    };
    let evidence = parse_comparative_controls(list, false)?;
    Ok(reported.union(&own).union(&evidence))
}

/// What one document of a bundle reports.
#[derive(Debug)]
pub struct EvidenceSignals {
    pub functional_score: Option<Scalar>,
    pub functional_ci_lower: Option<Scalar>,
    pub preservation_score: Option<Scalar>,
    pub identity_margin: Option<Scalar>,
    pub numerical_stability: Option<Scalar>,
    pub normalized_risk: Option<Scalar>,
    pub latency_micros: Option<u64>,
    pub resident_bytes: Option<u64>,
    pub completed_controls: ControlSet,
}

/// The model of [`EvidenceSignals`].
pub struct SignalsModel {
    pub functional_score: Option<Scalar>,
    pub functional_ci_lower: Option<Scalar>,
    pub preservation_score: Option<Scalar>,
    pub identity_margin: Option<Scalar>,
    pub numerical_stability: Option<Scalar>,
    pub normalized_risk: Option<Scalar>,
    pub latency_micros: Option<u64>,
    pub resident_bytes: Option<u64>,
    pub completed_controls: Set<ComparativeControl>,
}

impl View for EvidenceSignals {
    type V = SignalsModel;

    open spec fn view(&self) -> SignalsModel {
        SignalsModel {
            functional_score: self.functional_score,
            functional_ci_lower: self.functional_ci_lower,
            preservation_score: self.preservation_score,
            identity_margin: self.identity_margin,
            numerical_stability: self.numerical_stability,
            normalized_risk: self.normalized_risk,
            latency_micros: self.latency_micros,
            resident_bytes: self.resident_bytes,
            completed_controls: self.completed_controls@,
        }
    }
}

impl SignalsModel {
    /// A document that reports controls and nothing else.
    pub open spec fn only_controls(controls: Set<ComparativeControl>) -> SignalsModel {
        SignalsModel {
            functional_score: None,
            functional_ci_lower: None,
            preservation_score: None,
            identity_margin: None,
            numerical_stability: None,
            normalized_risk: None,
            latency_micros: None,
            resident_bytes: None,
            completed_controls: controls,
        }
    }
}

impl EvidenceSignals {
    /// A document that reports controls and nothing else.
    fn of_controls(completed_controls: ControlSet) -> (signals: EvidenceSignals)
        ensures
            signals@ == SignalsModel::only_controls(completed_controls@),
    {
        EvidenceSignals {
            functional_score: None,
            functional_ci_lower: None,
            preservation_score: None,
            identity_margin: None,
            numerical_stability: None,
            normalized_risk: None,
            latency_micros: None,
            resident_bytes: None,
            completed_controls,
        }
    }

    /// A document that reports nothing.
    pub fn empty() -> (signals: EvidenceSignals)
        ensures
            signals@ == SignalsModel::only_controls(Set::empty()),
    {
        EvidenceSignals::of_controls(ControlSet::new())
    }
}

/// The fraction that a document reports under a name.
pub open spec fn fraction(root: JsonTree, name: Seq<char>) -> Result<Scalar, ErrorView> {
    probability_outcome(member(root, name), name)
}

/// The latency that a document reports, under any of its three names.
pub open spec fn reported_latency(root: JsonTree) -> Result<u64, ErrorView> {
    count_outcome(
        either(
            either(member(root, "latency_micros"@), member(root, "latency_us"@)),
            member(root, "latency"@),
        ),
        "latency_micros"@,
    )
}

/// The memory that a document reports, under either of its two names.
pub open spec fn reported_memory(root: JsonTree) -> Result<u64, ErrorView> {
    count_outcome(
        either(member(root, "resident_bytes"@), member(root, "resident_bytes_estimate"@)),
        "resident_bytes"@,
    )
}

/// The signals of a document that must report every metric; the first one that
/// is missing or out of range decides the error.
pub open spec fn required_signals(root: JsonTree) -> Result<SignalsModel, ErrorView> {
    match (fraction(root, "functional_score"@), fraction(root, "functional_ci_lower"@)) {
        (Err(error), _) => Err(error),
        (_, Err(error)) => Err(error),
        (Ok(score), Ok(ci_lower)) => if score.less(ci_lower) {
            Err(ErrorView::Invalid("shadow_runner_metric_invalid:functional_ci_lower"@))
        } else {
            match (
                fraction(root, "preservation_score"@),
                fraction(root, "identity_margin"@),
                fraction(root, "numerical_stability"@),
                fraction(root, "normalized_risk"@),
                reported_latency(root),
                reported_memory(root),
                payload_controls(root, true),
            ) {
                (Err(error), _, _, _, _, _, _) => Err(error),
                (_, Err(error), _, _, _, _, _) => Err(error),
                (_, _, Err(error), _, _, _, _) => Err(error),
                (_, _, _, Err(error), _, _, _) => Err(error),
                (_, _, _, _, Err(error), _, _) => Err(error),
                (_, _, _, _, _, Err(error), _) => Err(error),
                (_, _, _, _, _, _, Err(error)) => Err(error),
                (
                    Ok(preservation),
                    Ok(margin),
                    Ok(stability),
                    Ok(risk),
                    Ok(latency),
                    Ok(memory),
                    Ok(controls),
                ) => Ok(
                    SignalsModel {
                        functional_score: Some(score),
                        functional_ci_lower: Some(ci_lower),
                        preservation_score: Some(preservation),
                        identity_margin: Some(margin),
                        numerical_stability: Some(stability),
                        normalized_risk: Some(risk),
                        latency_micros: Some(latency),
                        resident_bytes: Some(memory),
                        completed_controls: controls,
                    },
                ),
            }
        },
    }
}

/// Where the metrics of a document stand: in its member `metrics`, or in the
/// document itself.
pub open spec fn metrics_root(document: JsonTree) -> JsonTree {
    match member(document, "metrics"@) {
        Some(metrics) => metrics,
        None => document,
    }
}

/// The signals of a payload, from what its bytes hold.
pub open spec fn signals_outcome(document: Option<JsonTree>, require_metrics: bool) -> Result<
    SignalsModel,
    ErrorView,
> {
    match document {
        None => if require_metrics {
            Err(ErrorView::Invalid("shadow_runner_payload_invalid_json"@))
        } else {
            Ok(SignalsModel::only_controls(Set::empty()))
        },
        Some(tree) => if require_metrics {
            if metrics_root(tree) is Object {
                required_signals(metrics_root(tree))
            } else {
                Err(ErrorView::Invalid("shadow_runner_metric_payload_not_object"@))
            }
        } else {
            match payload_controls(tree, false) {
                Err(error) => Err(error),
                Ok(controls) => Ok(SignalsModel::only_controls(controls)),
            }
        },
    }
}

/// Reads every metric of a document.
fn read_required_signals(root: &Json) -> (signals: BrainResult<EvidenceSignals>)
    ensures
        outcome(signals) == required_signals(root@),
{
    let functional_score = parse_probability(root.get("functional_score"), "functional_score")?;
    let functional_ci_lower = parse_probability(
        root.get("functional_ci_lower"),
        "functional_ci_lower",
    )?;
    if functional_score.lt(functional_ci_lower) {
        return Err(BrainError::invalid("shadow_runner_metric_invalid:functional_ci_lower"));
    }
    let preservation_score = parse_probability(
        root.get("preservation_score"),
        "preservation_score",
    )?;
    let identity_margin = parse_probability(root.get("identity_margin"), "identity_margin")?;
    let numerical_stability = parse_probability(
        root.get("numerical_stability"),
        "numerical_stability",
    )?;
    let normalized_risk = parse_probability(root.get("normalized_risk"), "normalized_risk")?;
    let latency = match either_of(root, "latency_micros", "latency_us") {
        Some(latency) => Some(latency),
        None => root.get("latency"),
    };
    let latency_micros: u64 = parse_u64_signal(latency, "latency_micros")?;
    let resident_bytes: u64 = parse_u64_signal(
        either_of(root, "resident_bytes", "resident_bytes_estimate"),
        "resident_bytes",
    )?;
    let completed_controls = controls_from_payload(root, true)?;
    Ok(
        EvidenceSignals {
            functional_score: Some(functional_score),
            functional_ci_lower: Some(functional_ci_lower),
            preservation_score: Some(preservation_score),
            identity_margin: Some(identity_margin),
            numerical_stability: Some(numerical_stability),
            normalized_risk: Some(normalized_risk),
            latency_micros: Some(latency_micros),
            resident_bytes: Some(resident_bytes),
            completed_controls,
        },
    )
}

/// Reads the signals of a document, where the payload is one.
pub fn document_signal(document: Option<&Json>, require_metrics: bool) -> (signals: BrainResult<
    EvidenceSignals,
>)
    ensures
        outcome(signals) == signals_outcome(optional_tree(document), require_metrics),
{
    match document {
        None => if require_metrics {
            Err(BrainError::invalid("shadow_runner_payload_invalid_json"))
        } else {
            Ok(EvidenceSignals::empty())
        },
        Some(json) => if require_metrics {
            let root = match json.get("metrics") {
                Some(metrics) => metrics,
                None => json,
            };
            if !root.is_object() {
                return Err(BrainError::invalid("shadow_runner_metric_payload_not_object"));
            }
            read_required_signals(root)
        } else {
            let controls = controls_from_payload(json, false)?;
            Ok(EvidenceSignals::of_controls(controls))
        },
    }
}

/// Reads the signals of a payload.
pub fn parse_payload_signal(payload: &[u8], require_metrics: bool) -> (signals: BrainResult<
    EvidenceSignals,
>)
    ensures
        outcome(signals) == signals_outcome(json_text(payload@), require_metrics),
{
    match parse_json(payload) {
        Some(document) => document_signal(Some(&document), require_metrics),
        None => document_signal(None, require_metrics),
    }
}

/// The controls that any of the three documents names.
pub fn merge_controls(
    evaluation: &EvidenceSignals,
    candidate: &EvidenceSignals,
    receiver: &EvidenceSignals,
) -> (controls: ControlSet)
    ensures
        controls@ == evaluation@.completed_controls.union(candidate@.completed_controls).union(
            receiver@.completed_controls,
        ),
{
    evaluation.completed_controls.union(&candidate.completed_controls).union(
        &receiver.completed_controls,
    )
}

/// The signals of a bundle, all of them there.
#[derive(Debug)]
pub struct EvaluatedSignals {
    pub functional_score: Scalar,
    pub functional_ci_lower: Scalar,
    pub preservation_score: Scalar,
    pub identity_margin: Scalar,
    pub numerical_stability: Scalar,
    pub normalized_risk: Scalar,
    pub latency_micros: u64,
    pub resident_bytes: u64,
    pub completed_controls: ControlSet,
}

/// The model of [`EvaluatedSignals`].
pub struct EvaluatedModel {
    pub functional_score: Scalar,
    pub functional_ci_lower: Scalar,
    pub preservation_score: Scalar,
    pub identity_margin: Scalar,
    pub numerical_stability: Scalar,
    pub normalized_risk: Scalar,
    pub latency_micros: u64,
    pub resident_bytes: u64,
    pub completed_controls: Set<ComparativeControl>,
}

impl View for EvaluatedSignals {
    type V = EvaluatedModel;

    open spec fn view(&self) -> EvaluatedModel {
        EvaluatedModel {
            functional_score: self.functional_score,
            functional_ci_lower: self.functional_ci_lower,
            preservation_score: self.preservation_score,
            identity_margin: self.identity_margin,
            numerical_stability: self.numerical_stability,
            normalized_risk: self.normalized_risk,
            latency_micros: self.latency_micros,
            resident_bytes: self.resident_bytes,
            completed_controls: self.completed_controls@,
        }
    }
}

/// Every metric comes from the evaluation document, the controls from all three.
pub open spec fn evaluated_outcome(
    evaluation: SignalsModel,
    candidate: SignalsModel,
    receiver: SignalsModel,
) -> Result<EvaluatedModel, ErrorView> {
    let controls = evaluation.completed_controls.union(candidate.completed_controls).union(
        receiver.completed_controls,
    );
    if evaluation.functional_score is None || evaluation.functional_ci_lower is None
        || evaluation.preservation_score is None || evaluation.identity_margin is None
        || evaluation.numerical_stability is None || evaluation.normalized_risk is None
        || evaluation.latency_micros is None || evaluation.resident_bytes is None {
        Err(ErrorView::Invalid("shadow_runner_metrics_missing"@))
    } else if controls == Set::<ComparativeControl>::empty() {
        Err(ErrorView::Invalid("shadow_runner_controls_missing"@))
    } else {
        Ok(
            EvaluatedModel {
                functional_score: evaluation.functional_score->0,
                functional_ci_lower: evaluation.functional_ci_lower->0,
                preservation_score: evaluation.preservation_score->0,
                identity_margin: evaluation.identity_margin->0,
                numerical_stability: evaluation.numerical_stability->0,
                normalized_risk: evaluation.normalized_risk->0,
                latency_micros: evaluation.latency_micros->0,
                resident_bytes: evaluation.resident_bytes->0,
                completed_controls: controls,
            },
        )
    }
}

/// Joins the signals of the three documents.
pub fn evaluate_signal(
    evaluation: &EvidenceSignals,
    candidate: &EvidenceSignals,
    receiver: &EvidenceSignals,
) -> (signals: BrainResult<EvaluatedSignals>)
    ensures
        outcome(signals) == evaluated_outcome(evaluation@, candidate@, receiver@),
{
    let completed_controls = merge_controls(evaluation, candidate, receiver);
    match (
        (
            evaluation.functional_score,
            evaluation.functional_ci_lower,
            evaluation.preservation_score,
            evaluation.identity_margin,
        ),
        (
            evaluation.numerical_stability,
            evaluation.normalized_risk,
            evaluation.latency_micros,
            evaluation.resident_bytes,
        ),
    ) {
        (
            (
                Some(functional_score),
                Some(functional_ci_lower),
                Some(preservation_score),
                Some(identity_margin),
            ),
            (
                Some(numerical_stability),
                Some(normalized_risk),
                Some(latency_micros),
                Some(resident_bytes),
            ),
        ) => {
            if completed_controls.is_empty() {
                return Err(BrainError::invalid("shadow_runner_controls_missing"));
            }
            Ok(
                EvaluatedSignals {
                    functional_score,
                    functional_ci_lower,
                    preservation_score,
                    identity_margin,
                    numerical_stability,
                    normalized_risk,
                    latency_micros,
                    resident_bytes,
                    completed_controls,
                },
            )
        },
        _ => Err(BrainError::invalid("shadow_runner_metrics_missing")),
    }
}

/// What a shadow evaluation is run on.
#[derive(Debug)]
pub struct ShadowEvaluationBundle {
    pub schema: String,
    pub receiver_snapshot_sha256: Sha256Digest,
    pub candidate_sha256: Sha256Digest,
    pub strategy: MaterializationStrategy,
    pub receiver_payload: Vec<u8>,
    pub candidate_payload: Vec<u8>,
    pub evaluation_payload: Vec<u8>,
    pub receiver_payload_sha256: Sha256Digest,
    pub candidate_payload_sha256: Sha256Digest,
    pub evaluation_payload_sha256: Sha256Digest,
    pub optimizer_steps: u64,
}

/// The model of a [`ShadowEvaluationBundle`].
pub struct BundleModel {
    pub schema: Seq<char>,
    pub receiver_snapshot_sha256: Seq<char>,
    pub candidate_sha256: Seq<char>,
    pub strategy: MaterializationStrategy,
    pub receiver_payload: Seq<u8>,
    pub candidate_payload: Seq<u8>,
    pub evaluation_payload: Seq<u8>,
    pub receiver_payload_sha256: Seq<char>,
    pub candidate_payload_sha256: Seq<char>,
    pub evaluation_payload_sha256: Seq<char>,
    pub optimizer_steps: u64,
}

impl View for ShadowEvaluationBundle {
    type V = BundleModel;

    open spec fn view(&self) -> BundleModel {
        BundleModel {
            schema: self.schema@,
            receiver_snapshot_sha256: self.receiver_snapshot_sha256@,
            candidate_sha256: self.candidate_sha256@,
            strategy: self.strategy,
            receiver_payload: self.receiver_payload@,
            candidate_payload: self.candidate_payload@,
            evaluation_payload: self.evaluation_payload@,
            receiver_payload_sha256: self.receiver_payload_sha256@,
            candidate_payload_sha256: self.candidate_payload_sha256@,
            evaluation_payload_sha256: self.evaluation_payload_sha256@,
            optimizer_steps: self.optimizer_steps,
        }
    }
}

/// What a shadow evaluation reports.
#[derive(Debug)]
pub struct ShadowRuntimeOutput {
    pub schema: String,
    pub receiver_snapshot_sha256: Sha256Digest,
    pub candidate_sha256: Sha256Digest,
    pub receiver_payload_sha256: Sha256Digest,
    pub candidate_payload_sha256: Sha256Digest,
    pub evaluation_payload_sha256: Sha256Digest,
    pub functional_score: Scalar,
    pub functional_ci_lower: Scalar,
    pub preservation_score: Scalar,
    pub identity_margin: Scalar,
    pub numerical_stability: Scalar,
    pub normalized_risk: Scalar,
    pub latency_micros: u64,
    pub resident_bytes: u64,
    pub completed_controls: ControlSet,
    pub optimizer_steps: u64,
}

/// The model of a [`ShadowRuntimeOutput`].
pub struct OutputModel {
    pub schema: Seq<char>,
    pub receiver_snapshot_sha256: Seq<char>,
    pub candidate_sha256: Seq<char>,
    pub receiver_payload_sha256: Seq<char>,
    pub candidate_payload_sha256: Seq<char>,
    pub evaluation_payload_sha256: Seq<char>,
    pub signals: EvaluatedModel,
    pub optimizer_steps: u64,
}

impl View for ShadowRuntimeOutput {
    type V = OutputModel;

    open spec fn view(&self) -> OutputModel {
        OutputModel {
            schema: self.schema@,
            receiver_snapshot_sha256: self.receiver_snapshot_sha256@,
            candidate_sha256: self.candidate_sha256@,
            receiver_payload_sha256: self.receiver_payload_sha256@,
            candidate_payload_sha256: self.candidate_payload_sha256@,
            evaluation_payload_sha256: self.evaluation_payload_sha256@,
            signals: EvaluatedModel {
                functional_score: self.functional_score,
                functional_ci_lower: self.functional_ci_lower,
                preservation_score: self.preservation_score,
                identity_margin: self.identity_margin,
                numerical_stability: self.numerical_stability,
                normalized_risk: self.normalized_risk,
                latency_micros: self.latency_micros,
                resident_bytes: self.resident_bytes,
                completed_controls: self.completed_controls@,
            },
            optimizer_steps: self.optimizer_steps,
        }
    }
}

/// The output for a bundle whose three payloads hold the given documents.
pub open spec fn output_outcome(
    bundle: BundleModel,
    evaluation: Option<JsonTree>,
    candidate: Option<JsonTree>,
    receiver: Option<JsonTree>,
) -> Result<OutputModel, ErrorView> {
    match (
        signals_outcome(evaluation, true),
        signals_outcome(candidate, false),
        signals_outcome(receiver, false),
    ) {
        (Err(error), _, _) => Err(error),
        (_, Err(error), _) => Err(error),
        (_, _, Err(error)) => Err(error),
        (Ok(evaluation), Ok(candidate), Ok(receiver)) => match evaluated_outcome(
            evaluation,
            candidate,
            receiver,
        ) {
            Err(error) => Err(error),
            Ok(signals) => Ok(
                OutputModel {
                    schema: "cerebro.tidex.shadow_runtime_output/v1"@,
                    receiver_snapshot_sha256: bundle.receiver_snapshot_sha256,
                    candidate_sha256: bundle.candidate_sha256,
                    receiver_payload_sha256: bundle.receiver_payload_sha256,
                    candidate_payload_sha256: bundle.candidate_payload_sha256,
                    evaluation_payload_sha256: bundle.evaluation_payload_sha256,
                    signals,
                    optimizer_steps: bundle.optimizer_steps,
                },
            ),
        },
    }
}

/// The output for a bundle, from the signals of its payloads.
fn output_of(
    bundle: &ShadowEvaluationBundle,
    evaluation: BrainResult<EvidenceSignals>,
    candidate: BrainResult<EvidenceSignals>,
    receiver: BrainResult<EvidenceSignals>,
) -> (output: BrainResult<ShadowRuntimeOutput>)
    ensures
        forall|e: Option<JsonTree>, c: Option<JsonTree>, r: Option<JsonTree>|
            outcome(evaluation) == #[trigger] signals_outcome(e, true) && outcome(candidate)
                == #[trigger] signals_outcome(c, false) && outcome(receiver)
                == #[trigger] signals_outcome(r, false) ==> outcome(output) == output_outcome(
                bundle@,
                e,
                c,
                r,
            ),
{
    let evaluation = evaluation?;
    let candidate = candidate?;
    let receiver = receiver?;
    let signals = evaluate_signal(&evaluation, &candidate, &receiver)?;
    Ok(
        ShadowRuntimeOutput {
            schema: "cerebro.tidex.shadow_runtime_output/v1".to_owned(),
            receiver_snapshot_sha256: bundle.receiver_snapshot_sha256.clone(),
            candidate_sha256: bundle.candidate_sha256.clone(),
            receiver_payload_sha256: bundle.receiver_payload_sha256.clone(),
            candidate_payload_sha256: bundle.candidate_payload_sha256.clone(),
            evaluation_payload_sha256: bundle.evaluation_payload_sha256.clone(),
            functional_score: signals.functional_score,
            functional_ci_lower: signals.functional_ci_lower,
            preservation_score: signals.preservation_score,
            identity_margin: signals.identity_margin,
            numerical_stability: signals.numerical_stability,
            normalized_risk: signals.normalized_risk,
            latency_micros: signals.latency_micros,
            resident_bytes: signals.resident_bytes,
            completed_controls: signals.completed_controls,
            optimizer_steps: bundle.optimizer_steps,
        },
    )
}

/// The output for a bundle whose payloads were read as documents already.
pub fn document_metrics(
    bundle: &ShadowEvaluationBundle,
    evaluation: Option<&Json>,
    candidate: Option<&Json>,
    receiver: Option<&Json>,
) -> (output: BrainResult<ShadowRuntimeOutput>)
    ensures
        outcome(output) == output_outcome(
            bundle@,
            optional_tree(evaluation),
            optional_tree(candidate),
            optional_tree(receiver),
        ),
{
    output_of(
        bundle,
        document_signal(evaluation, true),
        document_signal(candidate, false),
        document_signal(receiver, false),
    )
}

/// The output for a bundle.
pub fn metrics(bundle: &ShadowEvaluationBundle) -> (output: BrainResult<ShadowRuntimeOutput>)
    ensures
        outcome(output) == output_outcome(
            bundle@,
            json_text(bundle@.evaluation_payload),
            json_text(bundle@.candidate_payload),
            json_text(bundle@.receiver_payload),
        ),
{
    output_of(
        bundle,
        parse_payload_signal(bundle.evaluation_payload.as_slice(), true),
        parse_payload_signal(bundle.candidate_payload.as_slice(), false),
        parse_payload_signal(bundle.receiver_payload.as_slice(), false),
    )
}

/// The one place where the runner finds its bundle: `/tidex/input`.
pub open spec fn runner_input_path() -> PathModel {
    PathModel {
        parts: seq![
            PartModel::Root,
            PartModel::Name(seq![116u8, 105, 100, 101, 120]),
            PartModel::Name(seq![105u8, 110, 112, 117, 116]),
        ],
    }
}

/// The place where the runner finds its bundle, in memory.
fn input_path() -> (path: FilePath)
    ensures
        path@ == runner_input_path(),
{
    let tidex: Vec<u8> = vec![116, 105, 100, 101, 120];
    let input: Vec<u8> = vec![105, 110, 112, 117, 116];
    assert(tidex@ =~= seq![116u8, 105, 100, 101, 120]);
    assert(input@ =~= seq![105u8, 110, 112, 117, 116]);
    let path = FilePath {
        parts: vec![PathPart::Root, PathPart::Name(tidex), PathPart::Name(input)],
    };
    assert(path@.parts =~= runner_input_path().parts);
    path
}

/// What was found where the runner looks for its bundle.
#[derive(Debug, Clone, Copy, PartialEq, Eq, Structural)]
pub struct InputFile {
    pub regular: bool,
    pub length: u64,
}

impl View for InputFile {
    type V = InputFile;

    open spec fn view(&self) -> InputFile {
        *self
    }
}

/// What the host has gathered for a run so far, in the order in which it is
/// asked for.
#[derive(Debug)]
pub struct RunnerProgress {
    /// The path that the environment names, where it names one.
    pub input_path: Option<FilePath>,
    pub file: Option<BrainResult<InputFile>>,
    pub bytes: Option<BrainResult<Vec<u8>>>,
    pub bundle: Option<BrainResult<ShadowEvaluationBundle>>,
}

/// The model of a [`RunnerProgress`].
pub struct RunnerModel {
    pub input_path: Option<PathModel>,
    pub file: Option<Result<InputFile, ErrorView>>,
    pub bytes: Option<Result<Seq<u8>, ErrorView>>,
    pub bundle: Option<Result<BundleModel, ErrorView>>,
}

impl View for RunnerProgress {
    type V = RunnerModel;

    open spec fn view(&self) -> RunnerModel {
        RunnerModel {
            input_path: match self.input_path {
                Some(path) => Some(path@),
                None => None,
            },
            file: awaited(self.file),
            bytes: awaited(self.bytes),
            bundle: awaited(self.bundle),
        }
    }
}

/// What a run needs next, or how it ended.
#[derive(Debug)]
pub enum RunnerStep {
    Failed(BrainError),
    /// Open the input and look at what it is.
    OpenInput,
    /// Read the input, up to this many bytes.
    ReadInput(u64),
    /// Read the bytes as a bundle and validate it.
    LoadBundle,
    /// Write this output.
    Write(ShadowRuntimeOutput),
}

/// The model of a [`RunnerStep`].
pub enum RunnerStepModel {
    Failed(ErrorView),
    OpenInput,
    ReadInput(u64),
    LoadBundle,
    Write(OutputModel),
}

impl View for RunnerStep {
    type V = RunnerStepModel;

    open spec fn view(&self) -> RunnerStepModel {
        match self {
            RunnerStep::Failed(error) => RunnerStepModel::Failed(error@),
            RunnerStep::OpenInput => RunnerStepModel::OpenInput,
            RunnerStep::ReadInput(limit) => RunnerStepModel::ReadInput(*limit),
            RunnerStep::LoadBundle => RunnerStepModel::LoadBundle,
            RunnerStep::Write(output) => RunnerStepModel::Write(output@),
        }
    }
}

/// Whether a document declares itself a bundle.
pub open spec fn schema_outcome(document: Option<JsonTree>) -> Result<(), ErrorView> {
    match document {
        None => Err(ErrorView::Invalid("shadow_runner_input_not_json"@)),
        Some(tree) => if member(tree, "schema"@) == Some(
            JsonTree::Text("cerebro.tidex.shadow_evaluation_bundle/v1"@),
        ) {
            Ok(())
        } else {
            Err(ErrorView::Invalid("shadow_runner_input_schema_invalid"@))
        },
    }
}

/// Checks that a document declares itself a bundle.
pub fn check_input_schema(document: Option<&Json>) -> (checked: BrainResult<()>)
    ensures
        plain(checked) == schema_outcome(optional_tree(document)),
{
    let json = match document {
        None => {
            return Err(BrainError::invalid("shadow_runner_input_not_json"));
        },
        Some(json) => json,
    };
    if let Some(schema) = json.get("schema") {
        if let Some(text) = schema.as_text() {
            if text_eq(text, "cerebro.tidex.shadow_evaluation_bundle/v1") {
                return Ok(());
            }
        }
    }
    Err(BrainError::invalid("shadow_runner_input_schema_invalid"))
}

/// Whether the bytes of the input may be read as a bundle, given the document
/// that they hold.
pub open spec fn bytes_outcome(bytes: Seq<u8>, document: Option<JsonTree>) -> Result<
    (),
    ErrorView,
> {
    if bytes.len() > MAX_INPUT_BYTES {
        Err(ErrorView::Invalid("shadow_runner_bundle_too_large"@))
    } else {
        schema_outcome(document)
    }
}

/// The next step of a run.
pub open spec fn runner_step(progress: RunnerModel) -> RunnerStepModel {
    match progress.input_path {
        None => RunnerStepModel::Failed(ErrorView::Invalid("tidex_input_path_missing"@)),
        Some(path) => if path != runner_input_path() {
            RunnerStepModel::Failed(ErrorView::Invalid("tidex_input_path_invalid"@))
        } else {
            match progress.file {
                None => RunnerStepModel::OpenInput,
                Some(Err(error)) => RunnerStepModel::Failed(error),
                Some(Ok(file)) => if !file.regular || file.length > MAX_INPUT_BYTES {
                    RunnerStepModel::Failed(
                        ErrorView::Invalid("shadow_runner_input_file_invalid"@),
                    )
                } else {
                    step_of_bytes(progress)
                },
            }
        },
    }
}

/// The next step of a run once the input may be read.
pub open spec fn step_of_bytes(progress: RunnerModel) -> RunnerStepModel {
    match progress.bytes {
        None => RunnerStepModel::ReadInput((MAX_INPUT_BYTES + 1) as u64),
        Some(Err(error)) => RunnerStepModel::Failed(error),
        Some(Ok(bytes)) => match bytes_outcome(bytes, json_text(bytes)) {
            Err(error) => RunnerStepModel::Failed(error),
            Ok(_) => match progress.bundle {
                None => RunnerStepModel::LoadBundle,
                Some(Err(error)) => RunnerStepModel::Failed(error),
                Some(Ok(bundle)) => match output_outcome(
                    bundle,
                    json_text(bundle.evaluation_payload),
                    json_text(bundle.candidate_payload),
                    json_text(bundle.receiver_payload),
                ) {
                    Err(error) => RunnerStepModel::Failed(error),
                    Ok(output) => RunnerStepModel::Write(output),
                },
            },
        },
    }
}

fn after_file(progress: &RunnerProgress) -> (step: RunnerStep)
    ensures
        step@ == step_of_bytes(progress@),
{
    let bytes = match &progress.bytes {
        None => {
            return RunnerStep::ReadInput(MAX_INPUT_BYTES + 1);
        },
        Some(Err(error)) => {
            return RunnerStep::Failed(error.duplicate());
        },
        Some(Ok(bytes)) => bytes,
    };
    if bytes.len() as u64 > MAX_INPUT_BYTES {
        return RunnerStep::Failed(BrainError::invalid("shadow_runner_bundle_too_large"));
    }
    let checked = match parse_json(bytes.as_slice()) {
        Some(document) => check_input_schema(Some(&document)),
        None => check_input_schema(None),
    };
    if let Err(error) = checked {
        return RunnerStep::Failed(error);
    }
    match &progress.bundle {
        None => RunnerStep::LoadBundle,
        Some(Err(error)) => RunnerStep::Failed(error.duplicate()),
        Some(Ok(bundle)) => match metrics(bundle) {
            Err(error) => RunnerStep::Failed(error),
            Ok(output) => RunnerStep::Write(output),
        },
    }
}

/// Decides what a run needs next, or how it ends.
pub fn run_universal_shadow_runner(progress: &RunnerProgress) -> (step: RunnerStep)
    ensures
        step@ == runner_step(progress@),
{
    let path = match &progress.input_path {
        None => {
            return RunnerStep::Failed(BrainError::invalid("tidex_input_path_missing"));
        },
        Some(path) => path,
    };
    if !path.same(&input_path()) {
        return RunnerStep::Failed(BrainError::invalid("tidex_input_path_invalid"));
    }
    match &progress.file {
        None => RunnerStep::OpenInput,
        Some(Err(error)) => RunnerStep::Failed(error.duplicate()),
        Some(Ok(file)) => {
            if !file.regular || file.length > MAX_INPUT_BYTES {
                return RunnerStep::Failed(BrainError::invalid("shadow_runner_input_file_invalid"));
            }
            after_file(progress)
        },
    }
}

/// Every reported fraction lies between zero and one, the lower confidence bound
/// does not exceed the score, and latency, memory and controls are never empty.
pub proof fn reported_metrics_are_bounded(
    bundle: BundleModel,
    evaluation: Option<JsonTree>,
    candidate: Option<JsonTree>,
    receiver: Option<JsonTree>,
)
    ensures
        output_outcome(bundle, evaluation, candidate, receiver) matches Ok(output) ==> {
            &&& output.signals.functional_score.is_unit_interval()
            &&& output.signals.functional_ci_lower.is_unit_interval()
            &&& output.signals.preservation_score.is_unit_interval()
            &&& output.signals.identity_margin.is_unit_interval()
            &&& output.signals.numerical_stability.is_unit_interval()
            &&& output.signals.normalized_risk.is_unit_interval()
            &&& output.signals.functional_ci_lower.at_most(output.signals.functional_score)
            &&& output.signals.latency_micros > 0
            &&& output.signals.resident_bytes > 0
            &&& output.signals.completed_controls != Set::<ComparativeControl>::empty()
        },
{
}

/// Whether an optional list names a control.
pub open spec fn list_names(list: Option<JsonTree>, control: ComparativeControl) -> bool {
    list matches Some(JsonTree::Array(items)) && items.contains(
        JsonTree::Text(control.wire_name()),
    )
}

/// Whether a document names a control in one of its lists.
pub open spec fn names_control(document: JsonTree, control: ComparativeControl) -> bool {
    ||| list_names(metrics_list(document), control)
    ||| list_names(own_list(document), control)
    ||| list_names(evidence_list(document), control)
}

proof fn lemma_named(items: Seq<JsonTree>, control: ComparativeControl)
    requires
        controls_named(items) is Ok,
    ensures
        controls_named(items)->Ok_0.contains(control) <==> items.contains(
            JsonTree::Text(control.wire_name()),
        ),
    decreases items.len(),
{
    let named = controls_named(items)->Ok_0;
    let wanted = JsonTree::Text(control.wire_name());
    if items.len() > 0 {
        let front = items.drop_last();
        lemma_named(front, control);
        let before = controls_named(front)->Ok_0;
        let last = control_outcome(items.last())->Ok_0;
        assert(named == before.push(last));
        assert(items.last() == JsonTree::Text(last.wire_name()));
        crate::controls::control_names_are_unambiguous(last, control);
        if named.contains(control) {
            let k = choose|k: int| 0 <= k < named.len() && named[k] == control;
            if k < before.len() {
                assert(before[k] == control);
                let i = choose|i: int| 0 <= i < front.len() && front[i] == wanted;
                assert(items[i] == wanted);
            } else {
                assert(items[items.len() - 1] == wanted);
            }
        }
        if items.contains(wanted) {
            let i = choose|i: int| 0 <= i < items.len() && items[i] == wanted;
            if i < front.len() {
                assert(front[i] == wanted);
                let k = choose|k: int| 0 <= k < before.len() && before[k] == control;
                assert(named[k] == control);
            } else {
                assert(named[before.len() as int] == control);
            }
        }
    }
}

proof fn lemma_listed(list: Option<JsonTree>, required: bool, control: ComparativeControl)
    requires
        controls_outcome(list, required) is Ok,
    ensures
        controls_outcome(list, required)->Ok_0.contains(control) <==> list_names(list, control),
{
    if let Some(JsonTree::Array(items)) = list {
        lemma_named(items, control);
    }
}

proof fn lemma_payload_names(payload: JsonTree, required: bool, control: ComparativeControl)
    requires
        payload_controls(payload, required) is Ok,
    ensures
        payload_controls(payload, required)->Ok_0.contains(control) <==> names_control(
            payload,
            control,
        ),
{
    let reported = controls_outcome(metrics_list(payload), false)->Ok_0;
    lemma_listed(metrics_list(payload), false, control);
    lemma_listed(
        own_list(payload),
        required && reported == Set::<ComparativeControl>::empty(),
        control,
    );
    lemma_listed(evidence_list(payload), false, control);
}

/// A control is reported exactly where one of the three documents names it: the
/// runner neither invents a control nor drops one.
pub proof fn reported_controls_are_exactly_the_named_ones(
    bundle: BundleModel,
    evaluation: Option<JsonTree>,
    candidate: Option<JsonTree>,
    receiver: Option<JsonTree>,
    control: ComparativeControl,
)
    ensures
        output_outcome(bundle, evaluation, candidate, receiver) matches Ok(output) ==> (
        output.signals.completed_controls.contains(control) <==> {
            ||| evaluation matches Some(tree) && names_control(metrics_root(tree), control)
            ||| candidate matches Some(tree) && names_control(tree, control)
            ||| receiver matches Some(tree) && names_control(tree, control)
        }),
{
    if output_outcome(bundle, evaluation, candidate, receiver) is Ok {
        lemma_payload_names(metrics_root(evaluation->0), true, control);
        if let Some(tree) = candidate {
            lemma_payload_names(tree, false, control);
        }
        if let Some(tree) = receiver {
            lemma_payload_names(tree, false, control);
        }
    }
}

/// The strategy of a bundle has no influence on what is reported.
pub proof fn strategy_does_not_influence_the_output(
    bundle: BundleModel,
    strategy: MaterializationStrategy,
    evaluation: Option<JsonTree>,
    candidate: Option<JsonTree>,
    receiver: Option<JsonTree>,
)
    ensures
        output_outcome(BundleModel { strategy, ..bundle }, evaluation, candidate, receiver)
            == output_outcome(bundle, evaluation, candidate, receiver),
{
}

/// A receiver or candidate payload that is no document never decides the
/// outcome: it counts as a document that names no controls.
pub proof fn opaque_payloads_are_ignored(
    bundle: BundleModel,
    evaluation: Option<JsonTree>,
    candidate: Option<JsonTree>,
    receiver: Option<JsonTree>,
    silent: JsonTree,
)
    requires
        payload_controls(silent, false) == Ok::<_, ErrorView>(Set::<ComparativeControl>::empty()),
    ensures
        output_outcome(bundle, evaluation, None, receiver) == output_outcome(
            bundle,
            evaluation,
            Some(silent),
            receiver,
        ),
        output_outcome(bundle, evaluation, candidate, None) == output_outcome(
            bundle,
            evaluation,
            candidate,
            Some(silent),
        ),
{
}

/// Every metric is read under its own name, from the metrics of the evaluation
/// document where it has such a member and from the document itself where it has
/// none; the latency and the memory under the first of their names that is there.
pub proof fn metrics_are_read_under_their_names(
    bundle: BundleModel,
    evaluation: JsonTree,
    candidate: Option<JsonTree>,
    receiver: Option<JsonTree>,
)
    ensures
        output_outcome(bundle, Some(evaluation), candidate, receiver) matches Ok(output) ==> {
            let root = match member(evaluation, "metrics"@) {
                Some(metrics) => metrics,
                None => evaluation,
            };
            let latency = if member(root, "latency_micros"@) is Some {
                member(root, "latency_micros"@)
            } else if member(root, "latency_us"@) is Some {
                member(root, "latency_us"@)
            } else {
                member(root, "latency"@)
            };
            let memory = if member(root, "resident_bytes"@) is Some {
                member(root, "resident_bytes"@)
            } else {
                member(root, "resident_bytes_estimate"@)
            };
            &&& root is Object
            &&& member(root, "functional_score"@) is Some && double_of(
                member(root, "functional_score"@)->0,
            ) == Some(output.signals.functional_score)
            &&& member(root, "functional_ci_lower"@) is Some && double_of(
                member(root, "functional_ci_lower"@)->0,
            ) == Some(output.signals.functional_ci_lower)
            &&& member(root, "preservation_score"@) is Some && double_of(
                member(root, "preservation_score"@)->0,
            ) == Some(output.signals.preservation_score)
            &&& member(root, "identity_margin"@) is Some && double_of(
                member(root, "identity_margin"@)->0,
            ) == Some(output.signals.identity_margin)
            &&& member(root, "numerical_stability"@) is Some && double_of(
                member(root, "numerical_stability"@)->0,
            ) == Some(output.signals.numerical_stability)
            &&& member(root, "normalized_risk"@) is Some && double_of(
                member(root, "normalized_risk"@)->0,
            ) == Some(output.signals.normalized_risk)
            &&& latency is Some && count_of(latency->0) == Some(output.signals.latency_micros)
            &&& memory is Some && count_of(memory->0) == Some(output.signals.resident_bytes)
        },
        output_outcome(bundle, None, candidate, receiver) is Err,
{
}

/// An integer is read as it stands, and a double only where it is a whole number.
pub proof fn counts_are_read_as_they_stand(tree: JsonTree)
    ensures
        unsigned_of(tree) is Some ==> count_of(tree) == unsigned_of(tree),
        unsigned_of(tree) is None && double_of(tree) is None ==> count_of(tree) is None,
        unsigned_of(tree) is None && double_of(tree) is Some ==> (count_of(tree) is Some
            <==> double_of(tree)->0.is_whole_u64()),
        unsigned_of(tree) is None && double_of(tree) is Some && count_of(tree) is Some
            ==> count_of(tree)->0 == double_of(tree)->0.whole_u64() as u64,
{
}

/// What is reported is reported for the bundle: its digests each in their place and
/// its number of optimizer steps.
pub proof fn outputs_belong_to_their_bundle(
    bundle: BundleModel,
    evaluation: Option<JsonTree>,
    candidate: Option<JsonTree>,
    receiver: Option<JsonTree>,
)
    ensures
        output_outcome(bundle, evaluation, candidate, receiver) matches Ok(output) ==> {
            &&& output.schema == "cerebro.tidex.shadow_runtime_output/v1"@
            &&& output.receiver_snapshot_sha256 == bundle.receiver_snapshot_sha256
            &&& output.candidate_sha256 == bundle.candidate_sha256
            &&& output.receiver_payload_sha256 == bundle.receiver_payload_sha256
            &&& output.candidate_payload_sha256 == bundle.candidate_payload_sha256
            &&& output.evaluation_payload_sha256 == bundle.evaluation_payload_sha256
            &&& output.optimizer_steps == bundle.optimizer_steps
        },
{
}

/// A missing fraction, one that is no number and one that is not between zero and
/// one are told apart, under the name of the metric; so are a missing count, one
/// that is no whole number and a count of zero.
pub proof fn refused_metrics_are_told_apart(value: Option<JsonTree>, field: Seq<char>)
    ensures
        ({
            let fraction = probability_outcome(value, field);
            let count = count_outcome(value, field);
            let number = double_of(value->0);
            let whole = count_of(value->0);
            &&& value is None ==> fraction == Err::<Scalar, _>(
                ErrorView::Invalid("shadow_runner_metric_missing:"@ + field),
            )
            &&& value is Some && number is None ==> fraction == Err::<Scalar, _>(
                ErrorView::Invalid("shadow_runner_metric_invalid:"@ + field),
            )
            &&& value is Some && number is Some ==> fraction == if (Scalar { bits: 0 }).at_most(
                number->0,
            ) && number->0.at_most(Scalar { bits: 0x3FF0_0000_0000_0000 }) {
                Ok(number->0)
            } else {
                Err(ErrorView::Invalid("shadow_runner_metric_out_of_range:"@ + field))
            }
            &&& value is None ==> count == Err::<u64, _>(
                ErrorView::Invalid("shadow_runner_u64_missing:"@ + field),
            )
            &&& value is Some && whole is None ==> count == Err::<u64, _>(
                ErrorView::Invalid("shadow_runner_u64_invalid:"@ + field),
            )
            &&& value is Some && whole is Some ==> count == if whole->0 > 0 {
                Ok(whole->0)
            } else {
                Err(ErrorView::Invalid("shadow_runner_u64_out_of_range:"@ + field))
            }
        }),
{
    crate::scalar::lemma_one();
    crate::scalar::lemma_magnitude_zero(0);
    if value is Some && double_of(value->0) is Some {
        let number = double_of(value->0)->0;
        if number.magnitude() == 0x7FF0_0000_0000_0000 {
            crate::scalar::lemma_magnitude_increasing(
                0x3FF0_0000_0000_0000,
                0x7FF0_0000_0000_0000,
            );
        }
    }
}

/// A document that reports everything is accepted: six fractions with a lower bound
/// not above the score, a positive latency and memory, and readable controls.
pub proof fn complete_evaluations_are_accepted(
    bundle: BundleModel,
    root: JsonTree,
    candidate: Option<JsonTree>,
    receiver: Option<JsonTree>,
)
    requires
        root is Object,
        member(root, "metrics"@) is None,
        member(root, "functional_score"@) is Some && double_of(member(root, "functional_score"@)->0) is Some,
        double_of(member(root, "functional_score"@)->0)->0.is_unit_interval(),
        member(root, "functional_ci_lower"@) is Some && double_of(member(root, "functional_ci_lower"@)->0) is Some,
        double_of(member(root, "functional_ci_lower"@)->0)->0.is_unit_interval(),
        member(root, "preservation_score"@) is Some && double_of(member(root, "preservation_score"@)->0) is Some,
        double_of(member(root, "preservation_score"@)->0)->0.is_unit_interval(),
        member(root, "identity_margin"@) is Some && double_of(member(root, "identity_margin"@)->0) is Some,
        double_of(member(root, "identity_margin"@)->0)->0.is_unit_interval(),
        member(root, "numerical_stability"@) is Some && double_of(member(root, "numerical_stability"@)->0) is Some,
        double_of(member(root, "numerical_stability"@)->0)->0.is_unit_interval(),
        member(root, "normalized_risk"@) is Some && double_of(member(root, "normalized_risk"@)->0) is Some,
        double_of(member(root, "normalized_risk"@)->0)->0.is_unit_interval(),
        !double_of(member(root, "functional_score"@)->0)->0.less(
            double_of(member(root, "functional_ci_lower"@)->0)->0,
        ),
        member(root, "latency_micros"@) is Some,
        count_of(member(root, "latency_micros"@)->0) matches Some(n) && n > 0,
        member(root, "resident_bytes"@) is Some,
        count_of(member(root, "resident_bytes"@)->0) matches Some(n) && n > 0,
        payload_controls(root, true) is Ok,
        payload_controls(root, true)->Ok_0 != Set::<ComparativeControl>::empty(),
        candidate matches Some(tree) ==> payload_controls(tree, false) is Ok,
        receiver matches Some(tree) ==> payload_controls(tree, false) is Ok,
    ensures
        output_outcome(bundle, Some(root), candidate, receiver) is Ok,
{
    let own = payload_controls(root, true)->Ok_0;
    let output = output_outcome(bundle, Some(root), candidate, receiver);
    let a = signals_outcome(candidate, false)->Ok_0.completed_controls;
    let b = signals_outcome(receiver, false)->Ok_0.completed_controls;
    if own.union(a).union(b) == Set::<ComparativeControl>::empty() {
        assert forall|c: ComparativeControl| !own.contains(c) by {
            assert(!own.union(a).union(b).contains(c));
        }
        assert(own =~= Set::<ComparativeControl>::empty());
    }
}

/// A list of controls is accepted exactly when it holds between one and sixty-four
/// texts, each the name of a control and none of them twice; and a list that is not
/// there only where it is not required.
pub proof fn control_lists_name_each_control_once(items: Seq<JsonTree>, required: bool)
    ensures
        ({
            let named = forall|i: int|
                0 <= i < items.len() ==> exists|c: ComparativeControl|
                    #[trigger] items[i] == JsonTree::Text(#[trigger] c.wire_name());
            let once = forall|i: int, j: int|
                0 <= i < j < items.len() ==> #[trigger] items[i] != #[trigger] items[j];
            controls_outcome(Some(JsonTree::Array(items)), required) is Ok <==> 0 < items.len()
                <= 64 && named && once
        }),
        controls_outcome(None, required) == if required {
            Err(ErrorView::Invalid("shadow_runner_controls_missing"@))
        } else {
            Ok(Set::<ComparativeControl>::empty())
        },
{
    lemma_controls_one_by_one(items);
    let named = forall|i: int|
        0 <= i < items.len() ==> exists|c: ComparativeControl|
            #[trigger] items[i] == JsonTree::Text(#[trigger] c.wire_name());
    if named {
        let controls = controls_named(items)->Ok_0;
        let once = forall|i: int, j: int|
            0 <= i < j < items.len() ==> #[trigger] items[i] != #[trigger] items[j];
        if once {
            assert forall|i: int, j: int|
                0 <= i < controls.len() && 0 <= j < controls.len() && i != j implies controls[i]
                != controls[j] by {
                if i < j {
                    assert(items[i] != items[j]);
                } else {
                    assert(items[j] != items[i]);
                }
            }
        }
        if controls.no_duplicates() {
            assert forall|i: int, j: int| 0 <= i < j < items.len() implies #[trigger] items[i]
                != #[trigger] items[j] by {
                assert(controls[i] != controls[j]);
                crate::controls::control_names_are_unambiguous(controls[i], controls[j]);
            }
        }
    }
}

proof fn lemma_controls_one_by_one(items: Seq<JsonTree>)
    ensures
        controls_named(items) is Ok <==> forall|i: int|
            0 <= i < items.len() ==> exists|c: ComparativeControl|
                #[trigger] items[i] == JsonTree::Text(#[trigger] c.wire_name()),
        controls_named(items) matches Ok(controls) ==> controls.len() == items.len() && forall|
            i: int,
        |
            0 <= i < items.len() ==> items[i] == JsonTree::Text(
                (#[trigger] controls[i]).wire_name(),
            ),
    decreases items.len(),
{
    if items.len() > 0 {
        let front = items.drop_last();
        let last = items.len() - 1;
        lemma_controls_one_by_one(front);
        assert forall|i: int| 0 <= i < front.len() implies #[trigger] front[i] == items[i] by {}
        if controls_named(items) is Ok {
            let controls = controls_named(items)->Ok_0;
            let before = controls_named(front)->Ok_0;
            assert forall|i: int| 0 <= i < items.len() implies items[i] == JsonTree::Text(
                (#[trigger] controls[i]).wire_name(),
            ) by {
                if i < last {
                    assert(controls[i] == before[i]);
                    assert(front[i] == items[i]);
                }
            }
            assert forall|i: int| 0 <= i < items.len() implies exists|c: ComparativeControl|
                #[trigger] items[i] == JsonTree::Text(#[trigger] c.wire_name()) by {
                assert(items[i] == JsonTree::Text(controls[i].wire_name()));
            }
        }
        if forall|i: int|
            0 <= i < items.len() ==> exists|c: ComparativeControl|
                #[trigger] items[i] == JsonTree::Text(#[trigger] c.wire_name()) {
            assert forall|i: int| 0 <= i < front.len() implies exists|c: ComparativeControl|
                #[trigger] front[i] == JsonTree::Text(#[trigger] c.wire_name()) by {
                assert(front[i] == items[i]);
            }
            assert(items[last] == items.last());
        }
    }
}

/// A document names its controls in its metrics, in itself and in its evidence, each
/// list under its own name: a list of completed controls goes before one of controls.
pub proof fn controls_are_read_from_three_places(document: JsonTree, control: ComparativeControl)
    ensures
        ({
            let named = JsonTree::Text(control.wire_name());
            let metrics = member(document, "metrics"@);
            let reported = if member(metrics->0, "completed_controls"@) is Some {
                member(metrics->0, "completed_controls"@)
            } else {
                member(metrics->0, "controls"@)
            };
            let own = if member(document, "completed_controls"@) is Some {
                member(document, "completed_controls"@)
            } else {
                member(document, "controls"@)
            };
            let evidence = member(
                member(document, "evidence"@)->0,
                "comparative_controls"@,
            );
            payload_controls(document, false) matches Ok(controls) ==> (controls.contains(control)
                <==> {
                ||| metrics is Some && reported is Some && reported->0 is Array
                    && reported->0->Array_0.contains(named)
                ||| own is Some && own->0 is Array && own->0->Array_0.contains(named)
                ||| member(document, "evidence"@) is Some && evidence is Some
                    && evidence->0 is Array && evidence->0->Array_0.contains(named)
            })
        }),
{
    if payload_controls(document, false) is Ok {
        lemma_payload_names(document, false, control);
    }
}

/// A run opens only `/tidex/input`, reads it only where it is a regular file of at
/// most 256 MiB and never more than one byte beyond that, and writes only what the
/// bundle that it holds reports.
pub proof fn runs_read_one_bounded_file(progress: RunnerModel)
    ensures
        ({
            let step = runner_step(progress);
            let tidex = PartModel::Name(seq![116u8, 105, 100, 101, 120]);
            let input = PartModel::Name(seq![105u8, 110, 112, 117, 116]);
            let placed = progress.input_path is Some && progress.input_path->0.parts == seq![
                PartModel::Root,
                tidex,
                input,
            ];
            let file = progress.file->0->Ok_0;
            let found = placed && progress.file is Some && progress.file->0 is Ok;
            let small = found && file.regular && file.length <= 268_435_456;
            let bytes = progress.bytes->0->Ok_0;
            let read = small && progress.bytes is Some && progress.bytes->0 is Ok;
            &&& progress.input_path is None ==> step == RunnerStepModel::Failed(
                ErrorView::Invalid("tidex_input_path_missing"@),
            )
            &&& progress.input_path is Some && !placed ==> step == RunnerStepModel::Failed(
                ErrorView::Invalid("tidex_input_path_invalid"@),
            )
            &&& step is OpenInput <==> placed && progress.file is None
            &&& found && !small ==> step == RunnerStepModel::Failed(
                ErrorView::Invalid("shadow_runner_input_file_invalid"@),
            )
            &&& step is ReadInput <==> small && progress.bytes is None
            &&& step matches RunnerStepModel::ReadInput(limit) ==> limit == 268_435_457
            &&& read && bytes.len() > 268_435_456 ==> step == RunnerStepModel::Failed(
                ErrorView::Invalid("shadow_runner_bundle_too_large"@),
            )
            &&& step is LoadBundle ==> read && bytes.len() <= 268_435_456 && json_text(
                bytes,
            ) is Some && member(json_text(bytes)->0, "schema"@) == Some(
                JsonTree::Text("cerebro.tidex.shadow_evaluation_bundle/v1"@),
            )
            &&& step matches RunnerStepModel::Write(output) ==> {
                &&& read && bytes.len() <= 268_435_456
                &&& progress.bundle is Some && progress.bundle->0 is Ok
                &&& output_outcome(
                    progress.bundle->0->Ok_0,
                    json_text(progress.bundle->0->Ok_0.evaluation_payload),
                    json_text(progress.bundle->0->Ok_0.candidate_payload),
                    json_text(progress.bundle->0->Ok_0.receiver_payload),
                ) == Ok::<_, ErrorView>(output)
            }
        }),
{
    assert(runner_input_path().parts == seq![
        PartModel::Root,
        PartModel::Name(seq![116u8, 105, 100, 101, 120]),
        PartModel::Name(seq![105u8, 110, 112, 117, 116]),
    ]);
}

/// An input declares itself a bundle or is refused: as no JSON where it cannot be
/// read, and by its schema otherwise.
pub proof fn inputs_declare_themselves_bundles(document: Option<JsonTree>)
    ensures
        document is None ==> schema_outcome(document) == Err::<(), _>(
            ErrorView::Invalid("shadow_runner_input_not_json"@),
        ),
        document is Some ==> (schema_outcome(document) is Ok <==> member(document->0, "schema"@)
            == Some(JsonTree::Text("cerebro.tidex.shadow_evaluation_bundle/v1"@))),
        document is Some && schema_outcome(document) is Err ==> schema_outcome(document) == Err::<
            (),
            _,
        >(ErrorView::Invalid("shadow_runner_input_schema_invalid"@)),
{
}

/// A control that is not a text, and a text that names no control, are refused each in
/// its own way; a control that is named is the one that is read.
pub proof fn controls_are_read_by_their_names(item: JsonTree, control: ComparativeControl)
    ensures
        control_outcome(JsonTree::Text(control.wire_name())) == Ok::<_, ErrorView>(control),
        !(item is Text) ==> control_outcome(item) == Err::<ComparativeControl, _>(
            ErrorView::Invalid("shadow_runner_control_invalid"@),
        ),
        item is Text && (forall|c: ComparativeControl| #[trigger] c.wire_name() != item->Text_0)
            ==> control_outcome(item) == Err::<ComparativeControl, _>(
            ErrorView::Invalid("shadow_runner_control_unknown"@),
        ),
{
    let name = control.wire_name();
    let read = choose|c: ComparativeControl| #[trigger] c.wire_name() == name;
    crate::controls::control_names_are_unambiguous(read, control);
}

/// A list of controls is refused for being no list, for holding none or too many, for
/// the first item that is refused, and for naming a control twice, in this order.
pub proof fn refused_control_lists_are_told_apart(
    value: JsonTree,
    items: Seq<JsonTree>,
    required: bool,
    k: int,
)
    ensures
        !(value is Array) ==> controls_outcome(Some(value), required) == Err::<
            Set<ComparativeControl>,
            _,
        >(ErrorView::Invalid("shadow_runner_controls_invalid"@)),
        items.len() == 0 || items.len() > 64 ==> controls_outcome(
            Some(JsonTree::Array(items)),
            required,
        ) == Err::<Set<ComparativeControl>, _>(
            ErrorView::Invalid("shadow_runner_controls_cardinality_invalid"@),
        ),
        0 <= k < items.len() <= 64 && control_outcome(items[k]) is Err && (forall|i: int|
            0 <= i < k ==> control_outcome(#[trigger] items[i]) is Ok) ==> controls_outcome(
            Some(JsonTree::Array(items)),
            required,
        ) == Err::<Set<ComparativeControl>, _>(control_outcome(items[k])->Err_0),
        0 < items.len() <= 64 && (forall|i: int|
            0 <= i < items.len() ==> control_outcome(#[trigger] items[i]) is Ok) && (exists|
            i: int,
            j: int,
        |
            0 <= i < j < items.len() && #[trigger] items[i] == #[trigger] items[j])
            ==> controls_outcome(Some(JsonTree::Array(items)), required) == Err::<
            Set<ComparativeControl>,
            _,
        >(ErrorView::Invalid("shadow_runner_control_duplicate"@)),
{
    if 0 <= k < items.len() <= 64 && control_outcome(items[k]) is Err && (forall|i: int|
        0 <= i < k ==> control_outcome(#[trigger] items[i]) is Ok) {
        lemma_first_refused_control(items, k);
    }
    if 0 < items.len() <= 64 && (forall|i: int|
        0 <= i < items.len() ==> control_outcome(#[trigger] items[i]) is Ok) {
        lemma_controls_in_their_places(items);
        let controls = controls_named(items)->Ok_0;
        if exists|i: int, j: int|
            0 <= i < j < items.len() && #[trigger] items[i] == #[trigger] items[j] {
            let (i, j) = choose|i: int, j: int|
                0 <= i < j < items.len() && #[trigger] items[i] == #[trigger] items[j];
            assert(controls[i] == controls[j]);
            assert(!controls.no_duplicates());
        }
    }
}

proof fn lemma_controls_in_their_places(items: Seq<JsonTree>)
    requires
        forall|i: int| 0 <= i < items.len() ==> control_outcome(#[trigger] items[i]) is Ok,
    ensures
        controls_named(items) is Ok,
        controls_named(items)->Ok_0.len() == items.len(),
        forall|i: int|
            0 <= i < items.len() ==> control_outcome(items[i]) == Ok::<_, ErrorView>(
                #[trigger] controls_named(items)->Ok_0[i],
            ),
    decreases items.len(),
{
    if items.len() > 0 {
        let front = items.drop_last();
        assert forall|i: int| 0 <= i < front.len() implies control_outcome(
            #[trigger] front[i],
        ) is Ok by {
            assert(front[i] == items[i]);
        }
        lemma_controls_in_their_places(front);
        assert(control_outcome(items[items.len() - 1]) is Ok);
        assert(forall|i: int| 0 <= i < front.len() ==> #[trigger] front[i] == items[i]);
    }
}

proof fn lemma_first_refused_control(items: Seq<JsonTree>, k: int)
    requires
        0 <= k < items.len(),
        control_outcome(items[k]) is Err,
        forall|i: int| 0 <= i < k ==> control_outcome(#[trigger] items[i]) is Ok,
    ensures
        controls_named(items) == Err::<Seq<ComparativeControl>, _>(
            control_outcome(items[k])->Err_0,
        ),
    decreases items.len(),
{
    let front = items.drop_last();
    if k == items.len() - 1 {
        assert forall|i: int| 0 <= i < front.len() implies control_outcome(
            #[trigger] front[i],
        ) is Ok by {
            assert(front[i] == items[i]);
        }
        lemma_controls_in_their_places(front);
    } else {
        assert forall|i: int| 0 <= i < k implies control_outcome(#[trigger] front[i]) is Ok by {
            assert(front[i] == items[i]);
        }
        lemma_first_refused_control(front, k);
    }
}

/// Where controls are required, a document must name some among its own or among its
/// metrics'; evidence alone does not do. Where they are not, a document that names none
/// is read as none.
pub proof fn required_controls_must_be_named(document: JsonTree)
    requires
        member(document, "completed_controls"@) is None,
        member(document, "controls"@) is None,
        member(document, "metrics"@) is None,
    ensures
        payload_controls(document, true) == Err::<Set<ComparativeControl>, _>(
            ErrorView::Invalid("shadow_runner_controls_missing"@),
        ),
        member(document, "evidence"@) is None ==> payload_controls(document, false) == Ok::<
            _,
            ErrorView,
        >(Set::<ComparativeControl>::empty()),
{
    assert(Set::<ComparativeControl>::empty().union(Set::<ComparativeControl>::empty()).union(
        Set::<ComparativeControl>::empty(),
    ) =~= Set::<ComparativeControl>::empty());
}

/// Payloads are refused for what is wrong with them: an evaluation for being no JSON
/// and for metrics that are no object, and each of the others for its controls; the
/// evaluation is judged before the candidate, and the candidate before the receiver.
pub proof fn refused_payloads_are_told_apart(
    bundle: BundleModel,
    evaluation: Option<JsonTree>,
    candidate: Option<JsonTree>,
    receiver: Option<JsonTree>,
)
    ensures
        evaluation is None ==> output_outcome(bundle, evaluation, candidate, receiver) == Err::<
            OutputModel,
            _,
        >(ErrorView::Invalid("shadow_runner_payload_invalid_json"@)),
        evaluation is Some && member(evaluation->0, "metrics"@) is Some && !(member(
            evaluation->0,
            "metrics"@,
        )->0 is Object) ==> output_outcome(bundle, evaluation, candidate, receiver) == Err::<
            OutputModel,
            _,
        >(ErrorView::Invalid("shadow_runner_metric_payload_not_object"@)),
        evaluation is Some && !(evaluation->0 is Object) ==> output_outcome(
            bundle,
            evaluation,
            candidate,
            receiver,
        ) == Err::<OutputModel, _>(ErrorView::Invalid("shadow_runner_metric_payload_not_object"@)),
        signals_outcome(evaluation, true) is Ok && candidate is Some && payload_controls(
            candidate->0,
            false,
        ) is Err ==> output_outcome(bundle, evaluation, candidate, receiver) == Err::<
            OutputModel,
            _,
        >(payload_controls(candidate->0, false)->Err_0),
        signals_outcome(evaluation, true) is Ok && (candidate is Some ==> payload_controls(
            candidate->0,
            false,
        ) is Ok) && receiver is Some && payload_controls(receiver->0, false) is Err
            ==> output_outcome(bundle, evaluation, candidate, receiver) == Err::<OutputModel, _>(
            payload_controls(receiver->0, false)->Err_0,
        ),
{
}

/// A lower end of the confidence interval above the score itself is refused, whatever
/// else the metrics say.
pub proof fn lower_ends_do_not_exceed_the_score(root: JsonTree, score: Scalar, lower: Scalar)
    requires
        member(root, "functional_score"@) is Some,
        double_of(member(root, "functional_score"@)->0) == Some(score),
        member(root, "functional_ci_lower"@) is Some,
        double_of(member(root, "functional_ci_lower"@)->0) == Some(lower),
        score.is_unit_interval(),
        lower.is_unit_interval(),
        score.less(lower),
    ensures
        required_signals(root) == Err::<SignalsModel, _>(
            ErrorView::Invalid("shadow_runner_metric_invalid:functional_ci_lower"@),
        ),
{
}

/// Signals are put together from the evaluation's metrics and from the controls of all
/// three payloads. A metric that is missing is refused, and then so is having no
/// control at all.
pub proof fn evaluated_signals_are_the_evaluations(
    evaluation: SignalsModel,
    candidate: SignalsModel,
    receiver: SignalsModel,
    control: ComparativeControl,
)
    ensures
        ({
            let outcome = evaluated_outcome(evaluation, candidate, receiver);
            let measured = {
                &&& evaluation.functional_score is Some
                &&& evaluation.functional_ci_lower is Some
                &&& evaluation.preservation_score is Some
                &&& evaluation.identity_margin is Some
                &&& evaluation.numerical_stability is Some
                &&& evaluation.normalized_risk is Some
                &&& evaluation.latency_micros is Some
                &&& evaluation.resident_bytes is Some
            };
            let named = evaluation.completed_controls.contains(control)
                || candidate.completed_controls.contains(control)
                || receiver.completed_controls.contains(control);
            &&& !measured ==> outcome == Err::<EvaluatedModel, _>(
                ErrorView::Invalid("shadow_runner_metrics_missing"@),
            )
            &&& measured && named ==> outcome is Ok
            &&& measured && outcome is Err ==> outcome == Err::<EvaluatedModel, _>(
                ErrorView::Invalid("shadow_runner_controls_missing"@),
            )
            &&& outcome matches Ok(signals) ==> {
                &&& evaluation.functional_score == Some(signals.functional_score)
                &&& evaluation.functional_ci_lower == Some(signals.functional_ci_lower)
                &&& evaluation.preservation_score == Some(signals.preservation_score)
                &&& evaluation.identity_margin == Some(signals.identity_margin)
                &&& evaluation.numerical_stability == Some(signals.numerical_stability)
                &&& evaluation.normalized_risk == Some(signals.normalized_risk)
                &&& evaluation.latency_micros == Some(signals.latency_micros)
                &&& evaluation.resident_bytes == Some(signals.resident_bytes)
                &&& signals.completed_controls.contains(control) <==> named
            }
        }),
{
    let controls = evaluation.completed_controls.union(candidate.completed_controls).union(
        receiver.completed_controls,
    );
    if evaluation.completed_controls.contains(control) || candidate.completed_controls.contains(
        control,
    ) || receiver.completed_controls.contains(control) {
        assert(controls.contains(control));
        assert(!Set::<ComparativeControl>::empty().contains(control));
    }
}

/// Whatever a run asks for, an error in answer to it is the error that the run fails
/// with; and what is wrong with the payloads of the bundle is what the run fails with.
pub proof fn errors_end_a_run(progress: RunnerModel, error: ErrorView)
    ensures
        runner_step(progress) is OpenInput ==> runner_step(
            (RunnerModel { file: Some(Err(error)), ..progress }),
        ) == RunnerStepModel::Failed(error),
        runner_step(progress) is ReadInput ==> runner_step(
            (RunnerModel { bytes: Some(Err(error)), ..progress }),
        ) == RunnerStepModel::Failed(error),
        runner_step(progress) is LoadBundle ==> progress.bundle is None && runner_step(
            (RunnerModel { bundle: Some(Err(error)), ..progress }),
        ) == RunnerStepModel::Failed(error),
{
}

/// A bundle that was loaded is reported exactly where its payloads can be evaluated,
/// and otherwise its run fails for what is wrong with them.
pub proof fn loaded_bundles_are_reported_or_refused(progress: RunnerModel, bundle: BundleModel)
    requires
        runner_step(progress) is LoadBundle,
    ensures
        ({
            let output = output_outcome(
                bundle,
                json_text(bundle.evaluation_payload),
                json_text(bundle.candidate_payload),
                json_text(bundle.receiver_payload),
            );
            let next = runner_step((RunnerModel { bundle: Some(Ok(bundle)), ..progress }));
            &&& output is Ok ==> next == RunnerStepModel::Write(output->Ok_0)
            &&& output is Err ==> next == RunnerStepModel::Failed(output->Err_0)
        }),
{
}

/// What a latency, a size or a fraction is refused for names the signal that it stands
/// for, under whichever name it was reported.
pub proof fn refused_signals_are_named(root: JsonTree, name: Seq<char>)
    ensures
        member(root, "latency_micros"@) is None && member(root, "latency_us"@) is None && member(
            root,
            "latency"@,
        ) is None ==> reported_latency(root) == Err::<u64, _>(
            ErrorView::Invalid("shadow_runner_u64_missing:"@ + "latency_micros"@),
        ),
        member(root, "resident_bytes"@) is None && member(root, "resident_bytes_estimate"@) is None
            ==> reported_memory(root) == Err::<u64, _>(
            ErrorView::Invalid("shadow_runner_u64_missing:"@ + "resident_bytes"@),
        ),
        member(root, "resident_bytes"@) is Some && count_of(member(root, "resident_bytes"@)->0)
            is None ==> reported_memory(root) == Err::<u64, _>(
            ErrorView::Invalid("shadow_runner_u64_invalid:"@ + "resident_bytes"@),
        ),
        member(root, name) is None ==> fraction(root, name) == Err::<Scalar, _>(
            ErrorView::Invalid("shadow_runner_metric_missing:"@ + name),
        ),
{
}

} // verus!
