//! The three documents that a shadow evaluation carries: what the receiver is,
//! what was materialised, and what the evaluation found. The runner reads them
//! back.

use crate::checkpoint_inspection::{ArtifactsModel, InspectedReceiverArtifacts};
use crate::controls::{
    control_names_are_unambiguous, ordered, ordered_lists_hold_each_member_once,
    ComparativeControl, ControlSet,
};
use crate::error::ErrorView;
use crate::json::{lookup, member, Json, JsonTree};
use crate::lab_contracts::{
    shadow_input_of, CandidateDigests, CandidateDigestsModel, ShadowEvaluationInput,
    ShadowInputModel,
};
use crate::lab_policies::{backend_controls, controls_for};
use crate::lab_records::{
    metrics_are_numbers, reported_metrics_pass_the_runner, ShadowReadings,
};
use crate::receiver_compiler::{CompilationModel, ReceiverCompilation};
use crate::receiver_profile::MaterializationStrategy;
use crate::scalar::Scalar;
use crate::universal_shadow_runner::{
    control_outcome, controls_named, controls_outcome, output_outcome, payload_controls,
    BundleModel, EvaluatedModel,
};
use vstd::prelude::*;

verus! {

/// The trees of the members of an object.
pub open spec fn member_trees(members: Seq<(String, Json)>) -> Seq<(Seq<char>, JsonTree)> {
    members.map_values(|entry: (String, Json)| (entry.0@, entry.1@))
}

/// The object of the given members.
fn object(members: Vec<(String, Json)>) -> (json: Json)
    ensures
        json@ == JsonTree::Object(member_trees(members@)),
{
    let ghost trees = member_trees(members@);
    let json = Json::Object(members);
    assert(json@->Object_0 =~= trees);
    json
}

/// A number in a document; one that is not finite is written as null.
pub open spec fn number_tree(number: Scalar) -> JsonTree {
    if number.finite() {
        JsonTree::Number { unsigned: None, double: Some(number) }
    } else {
        JsonTree::Null
    }
}

fn number_json(number: Scalar) -> (json: Json)
    ensures
        json@ == number_tree(number),
{
    if number.is_finite() {
        Json::Number { unsigned: None, double: Some(number) }
    } else {
        Json::Null
    }
}

/// A count in a document.
pub open spec fn count_tree(count: u64) -> JsonTree {
    JsonTree::Number { unsigned: Some(count), double: None }
}

fn count_json(count: u64) -> (json: Json)
    ensures
        json@ == count_tree(count),
{
    Json::Number { unsigned: Some(count), double: None }
}

fn text_json(text: &str) -> (json: Json)
    ensures
        json@ == JsonTree::Text(text@),
{
    Json::Text(text.to_owned())
}

/// The names of some controls.
pub open spec fn name_trees(controls: Seq<ComparativeControl>) -> Seq<JsonTree> {
    controls.map_values(|control: ComparativeControl| JsonTree::Text(control.wire_name()))
}

/// A set of controls in a document: the names in the order of the controls.
pub open spec fn control_list(controls: Set<ComparativeControl>) -> JsonTree {
    JsonTree::Array(name_trees(ordered(controls)))
}

fn controls_json(controls: &ControlSet) -> (json: Json)
    ensures
        json@ == control_list(controls@),
{
    let listed = controls.to_vec();
    let ghost wanted = name_trees(ordered(controls@));
    let mut names: Vec<Json> = Vec::new();
    for i in 0..listed.len()
        invariant
            wanted == name_trees(listed@),
            names@.len() == i,
            forall|k: int| 0 <= k < i ==> (#[trigger] names@[k])@ == wanted[k],
    {
        names.push(text_json(listed[i].name()));
    }
    let json = Json::Array(names);
    assert(json@->Array_0 =~= wanted);
    json
}

/// What a receiver is, as a document.
pub open spec fn receiver_document(artifacts: ArtifactsModel) -> JsonTree {
    JsonTree::Object(
        seq![
            ("schema"@, JsonTree::Text("cerebro.tidex.real_receiver_payload/v1"@)),
            (
                "receiver_snapshot_sha256"@,
                JsonTree::Text(artifacts.snapshot.manifest_sha256),
            ),
            (
                "model_snapshot_sha256"@,
                JsonTree::Text(artifacts.snapshot.model_snapshot_sha256),
            ),
            ("receiver_layout_sha256"@, JsonTree::Text(artifacts.layout.manifest_sha256)),
            ("parameter_dimension"@, count_tree(artifacts.profile.parameter_dimension)),
        ],
    )
}

/// What a receiver is, as a document.
pub fn receiver_payload(artifacts: &InspectedReceiverArtifacts) -> (json: Json)
    ensures
        json@ == receiver_document(artifacts@),
{
    let json = object(
        vec![
            ("schema".to_owned(), text_json("cerebro.tidex.real_receiver_payload/v1")),
            (
                "receiver_snapshot_sha256".to_owned(),
                text_json(artifacts.snapshot.manifest_sha256.as_str()),
            ),
            (
                "model_snapshot_sha256".to_owned(),
                text_json(artifacts.snapshot.model_snapshot_sha256.as_str()),
            ),
            (
                "receiver_layout_sha256".to_owned(),
                text_json(artifacts.layout.manifest_sha256.as_str()),
            ),
            (
                "parameter_dimension".to_owned(),
                count_json(artifacts.profile.parameter_dimension),
            ),
        ],
    );
    assert(json@->Object_0 =~= receiver_document(artifacts@)->Object_0);
    json
}

/// What was materialised, as a document.
pub open spec fn candidate_document(
    primary: JsonTree,
    digests: CandidateDigestsModel,
    backend: MaterializationStrategy,
) -> JsonTree {
    JsonTree::Object(
        seq![
            ("schema"@, JsonTree::Text("cerebro.tidex.real_materialization_payload/v1"@)),
            ("primary_candidate"@, primary),
            (
                "alternative_candidate_sha256"@,
                JsonTree::Text(digests.alternative_candidate_sha256),
            ),
            ("target_delta_sha256"@, JsonTree::Text(digests.target_delta_sha256)),
            ("completed_controls"@, control_list(backend_controls(backend))),
        ],
    )
}

/// What was materialised, as a document around the candidate itself.
pub fn candidate_payload(
    primary: Json,
    digests: &CandidateDigests,
    backend: MaterializationStrategy,
) -> (json: Json)
    ensures
        json@ == candidate_document(primary@, digests@, backend),
{
    let ghost wanted = candidate_document(primary@, digests@, backend);
    let json = object(
        vec![
            ("schema".to_owned(), text_json("cerebro.tidex.real_materialization_payload/v1")),
            ("primary_candidate".to_owned(), primary),
            (
                "alternative_candidate_sha256".to_owned(),
                text_json(digests.alternative_candidate_sha256.as_str()),
            ),
            (
                "target_delta_sha256".to_owned(),
                text_json(digests.target_delta_sha256.as_str()),
            ),
            ("completed_controls".to_owned(), controls_json(&controls_for(backend))),
        ],
    );
    assert(json@->Object_0 =~= wanted->Object_0);
    json
}

/// The numbers of a compilation that an evaluation document repeats.
pub open spec fn compiler_metrics_tree(compilation: CompilationModel) -> JsonTree {
    JsonTree::Object(
        seq![
            ("functional_relative_error"@, number_tree(compilation.functional_relative_error)),
            ("correct_cosine"@, number_tree(compilation.correct_cosine)),
            ("maximum_wrong_cosine"@, number_tree(compilation.maximum_wrong_cosine)),
            ("decoder_loo_r2"@, number_tree(compilation.decoder_loo_r2)),
            ("encoder_loo_r2"@, number_tree(compilation.encoder_loo_r2)),
            ("trust_region_scale"@, number_tree(compilation.trust_region.scale)),
            (
                "accepted_quadratic_cost"@,
                number_tree(compilation.trust_region.accepted_quadratic_cost),
            ),
        ],
    )
}

fn compiler_metrics(compilation: &ReceiverCompilation) -> (json: Json)
    ensures
        json@ == compiler_metrics_tree(compilation@),
{
    let json = object(
        vec![
            (
                "functional_relative_error".to_owned(),
                number_json(compilation.functional_relative_error),
            ),
            ("correct_cosine".to_owned(), number_json(compilation.correct_cosine)),
            ("maximum_wrong_cosine".to_owned(), number_json(compilation.maximum_wrong_cosine)),
            ("decoder_loo_r2".to_owned(), number_json(compilation.decoder_loo_r2)),
            ("encoder_loo_r2".to_owned(), number_json(compilation.encoder_loo_r2)),
            ("trust_region_scale".to_owned(), number_json(compilation.trust_region.scale)),
            (
                "accepted_quadratic_cost".to_owned(),
                number_json(compilation.trust_region.accepted_quadratic_cost),
            ),
        ],
    );
    assert(json@->Object_0 =~= compiler_metrics_tree(compilation@)->Object_0);
    json
}

/// What an evaluation found, as a document.
pub open spec fn evaluation_document(
    input: ShadowInputModel,
    compilation: CompilationModel,
) -> JsonTree {
    JsonTree::Object(
        seq![
            ("schema"@, JsonTree::Text("cerebro.tidex.real_shadow_evaluation_payload/v1"@)),
            ("functional_score"@, number_tree(input.metrics.functional_score)),
            ("functional_ci_lower"@, number_tree(input.metrics.functional_ci_lower)),
            ("preservation_score"@, number_tree(input.metrics.preservation_score)),
            ("identity_margin"@, number_tree(input.metrics.identity_margin)),
            ("numerical_stability"@, number_tree(input.metrics.numerical_stability)),
            ("normalized_risk"@, number_tree(input.metrics.normalized_risk)),
            ("latency_micros"@, count_tree(input.latency_micros)),
            ("resident_bytes"@, count_tree(input.resident_bytes as u64)),
            ("completed_controls"@, control_list(input.completed_controls)),
            ("compiler_metrics"@, compiler_metrics_tree(compilation)),
        ],
    )
}

/// What an evaluation found, as a document.
pub fn evaluation_payload(
    input: &ShadowEvaluationInput,
    compilation: &ReceiverCompilation,
) -> (json: Json)
    ensures
        json@ == evaluation_document(input@, compilation@),
{
    let metrics = &input.metrics;
    let json = object(
        vec![
            ("schema".to_owned(), text_json("cerebro.tidex.real_shadow_evaluation_payload/v1")),
            ("functional_score".to_owned(), number_json(metrics.functional_score)),
            ("functional_ci_lower".to_owned(), number_json(metrics.functional_ci_lower)),
            ("preservation_score".to_owned(), number_json(metrics.preservation_score)),
            ("identity_margin".to_owned(), number_json(metrics.identity_margin)),
            ("numerical_stability".to_owned(), number_json(metrics.numerical_stability)),
            ("normalized_risk".to_owned(), number_json(metrics.normalized_risk)),
            ("latency_micros".to_owned(), count_json(input.latency_micros)),
            ("resident_bytes".to_owned(), count_json(input.resident_bytes as u64)),
            ("completed_controls".to_owned(), controls_json(&input.completed_controls)),
            ("compiler_metrics".to_owned(), compiler_metrics(compilation)),
        ],
    );
    assert(json@->Object_0 =~= evaluation_document(input@, compilation@)->Object_0);
    json
}

/// Whether an object has the members of another, in whatever order.
pub open spec fn same_members(tree: JsonTree, other: JsonTree) -> bool {
    tree is Object && forall|name: Seq<char>| #[trigger] member(tree, name) == member(other, name)
}

proof fn lemma_lookup_at(members: Seq<(Seq<char>, JsonTree)>, k: int)
    requires
        0 <= k < members.len(),
        forall|j: int| 0 <= j < k ==> (#[trigger] members[j]).0 != members[k].0,
    ensures
        lookup(members, members[k].0) == Some(members[k].1),
    decreases k,
{
    if k > 0 {
        assert(members[0].0 != members[k].0);
        let rest = members.skip(1);
        assert forall|j: int| 0 <= j < k - 1 implies (#[trigger] rest[j]).0 != rest[k - 1].0 by {
            assert(rest[j] == members[j + 1]);
        }
        lemma_lookup_at(rest, k - 1);
    }
}

proof fn lemma_lookup_absent(members: Seq<(Seq<char>, JsonTree)>, name: Seq<char>)
    requires
        forall|j: int| 0 <= j < members.len() ==> (#[trigger] members[j]).0 != name,
    ensures
        lookup(members, name) is None,
    decreases members.len(),
{
    if members.len() > 0 {
        assert(members[0].0 != name);
        let rest = members.skip(1);
        assert forall|j: int| 0 <= j < rest.len() implies (#[trigger] rest[j]).0 != name by {
            assert(rest[j] == members[j + 1]);
        }
        lemma_lookup_absent(rest, name);
    }
}

proof fn lemma_names_are_read(controls: Seq<ComparativeControl>)
    ensures
        controls_named(name_trees(controls)) == Ok::<_, ErrorView>(controls),
    decreases controls.len(),
{
    let names = name_trees(controls);
    if controls.len() == 0 {
        assert(controls =~= Seq::empty());
    } else {
        let front = controls.drop_last();
        let last = controls.last();
        lemma_names_are_read(front);
        assert(names.drop_last() =~= name_trees(front));
        assert(names.last() == JsonTree::Text(last.wire_name()));
        let read = choose|c: ComparativeControl| #[trigger] c.wire_name() == last.wire_name();
        control_names_are_unambiguous(read, last);
        assert(control_outcome(names.last()) == Ok::<_, ErrorView>(last));
        assert(front.push(last) =~= controls);
    }
}

/// Whoever reads a list of controls gets the set that was written: nothing is
/// lost, added or refused, as long as there is a control at all.
pub proof fn listed_controls_are_read_back(controls: Set<ComparativeControl>, required: bool)
    requires
        controls != Set::<ComparativeControl>::empty(),
    ensures
        controls_outcome(Some(control_list(controls)), required) == Ok::<
            _,
            ErrorView,
        >(controls),
{
    ordered_lists_hold_each_member_once(controls);
    lemma_names_are_read(ordered(controls));
    if ordered(controls).len() == 0 {
        assert(ordered(controls).to_set() =~= Set::empty());
    }
}

proof fn lemma_controls_of_a_list(tree: JsonTree, controls: Set<ComparativeControl>, required: bool)
    requires
        controls != Set::<ComparativeControl>::empty(),
        member(tree, "completed_controls"@) == Some(control_list(controls)),
        member(tree, "metrics"@) is None,
        member(tree, "evidence"@) is None,
    ensures
        payload_controls(tree, required) == Ok::<_, ErrorView>(controls),
{
    listed_controls_are_read_back(controls, required);
    assert(Set::<ComparativeControl>::empty().union(controls).union(Set::empty()) =~= controls);
}

proof fn lemma_evaluation_members(input: ShadowInputModel, compilation: CompilationModel)
    ensures
        ({
            let tree = evaluation_document(input, compilation);
            &&& member(tree, "functional_score"@) == Some(
                number_tree(input.metrics.functional_score),
            )
            &&& member(tree, "functional_ci_lower"@) == Some(
                number_tree(input.metrics.functional_ci_lower),
            )
            &&& member(tree, "preservation_score"@) == Some(
                number_tree(input.metrics.preservation_score),
            )
            &&& member(tree, "identity_margin"@) == Some(number_tree(input.metrics.identity_margin))
            &&& member(tree, "numerical_stability"@) == Some(
                number_tree(input.metrics.numerical_stability),
            )
            &&& member(tree, "normalized_risk"@) == Some(number_tree(input.metrics.normalized_risk))
            &&& member(tree, "latency_micros"@) == Some(count_tree(input.latency_micros))
            &&& member(tree, "resident_bytes"@) == Some(count_tree(input.resident_bytes as u64))
            &&& member(tree, "completed_controls"@) == Some(control_list(input.completed_controls))
            &&& member(tree, "metrics"@) is None
            &&& member(tree, "evidence"@) is None
        }),
{
    reveal_strlit("schema");
    reveal_strlit("functional_score");
    reveal_strlit("functional_ci_lower");
    reveal_strlit("preservation_score");
    reveal_strlit("identity_margin");
    reveal_strlit("numerical_stability");
    reveal_strlit("normalized_risk");
    reveal_strlit("latency_micros");
    reveal_strlit("resident_bytes");
    reveal_strlit("completed_controls");
    reveal_strlit("compiler_metrics");
    reveal_strlit("metrics");
    reveal_strlit("evidence");
    let members = evaluation_document(input, compilation)->Object_0;
    assert(members.len() == 11);
    assert(members[0].0 == "schema"@);
    assert(members[1].0 == "functional_score"@);
    assert(members[2].0 == "functional_ci_lower"@);
    assert(members[3].0 == "preservation_score"@);
    assert(members[4].0 == "identity_margin"@);
    assert(members[5].0 == "numerical_stability"@);
    assert(members[6].0 == "normalized_risk"@);
    assert(members[7].0 == "latency_micros"@);
    assert(members[8].0 == "resident_bytes"@);
    assert(members[9].0 == "completed_controls"@);
    assert(members[10].0 == "compiler_metrics"@);
    assert forall|j: int, k: int| 0 <= j < k < members.len() implies (#[trigger] members[j]).0 != (
    #[trigger] members[k]).0 by {
        assert(members[j].0.len() != members[k].0.len() || members[j].0[0] != members[k].0[0]);
    }
    lemma_lookup_at(members, 1);
    lemma_lookup_at(members, 2);
    lemma_lookup_at(members, 3);
    lemma_lookup_at(members, 4);
    lemma_lookup_at(members, 5);
    lemma_lookup_at(members, 6);
    lemma_lookup_at(members, 7);
    lemma_lookup_at(members, 8);
    lemma_lookup_at(members, 9);
    lemma_lookup_absent(members, "metrics"@);
    lemma_lookup_absent(members, "evidence"@);
}

proof fn lemma_candidate_members(
    primary: JsonTree,
    digests: CandidateDigestsModel,
    backend: MaterializationStrategy,
)
    ensures
        ({
            let tree = candidate_document(primary, digests, backend);
            &&& member(tree, "completed_controls"@) == Some(
                control_list(backend_controls(backend)),
            )
            &&& member(tree, "metrics"@) is None
            &&& member(tree, "evidence"@) is None
        }),
{
    reveal_strlit("schema");
    reveal_strlit("primary_candidate");
    reveal_strlit("alternative_candidate_sha256");
    reveal_strlit("target_delta_sha256");
    reveal_strlit("completed_controls");
    reveal_strlit("metrics");
    reveal_strlit("evidence");
    let members = candidate_document(primary, digests, backend)->Object_0;
    assert(members.len() == 5);
    assert(members[0].0 == "schema"@);
    assert(members[1].0 == "primary_candidate"@);
    assert(members[2].0 == "alternative_candidate_sha256"@);
    assert(members[3].0 == "target_delta_sha256"@);
    assert(members[4].0 == "completed_controls"@);
    lemma_lookup_at(members, 4);
    lemma_lookup_absent(members, "metrics"@);
    lemma_lookup_absent(members, "evidence"@);
}

proof fn lemma_receiver_members(artifacts: ArtifactsModel)
    ensures
        ({
            let tree = receiver_document(artifacts);
            &&& member(tree, "completed_controls"@) is None
            &&& member(tree, "controls"@) is None
            &&& member(tree, "metrics"@) is None
            &&& member(tree, "evidence"@) is None
        }),
{
    reveal_strlit("schema");
    reveal_strlit("receiver_snapshot_sha256");
    reveal_strlit("model_snapshot_sha256");
    reveal_strlit("receiver_layout_sha256");
    reveal_strlit("parameter_dimension");
    reveal_strlit("completed_controls");
    reveal_strlit("controls");
    reveal_strlit("metrics");
    reveal_strlit("evidence");
    let members = receiver_document(artifacts)->Object_0;
    assert(members.len() == 5);
    assert(members[0].0 == "schema"@);
    assert(members[1].0 == "receiver_snapshot_sha256"@);
    assert(members[2].0 == "model_snapshot_sha256"@);
    assert(members[3].0 == "receiver_layout_sha256"@);
    assert(members[4].0 == "parameter_dimension"@);
    lemma_lookup_absent(members, "completed_controls"@);
    lemma_lookup_absent(members, "controls"@);
    lemma_lookup_absent(members, "metrics"@);
    lemma_lookup_absent(members, "evidence"@);
}

/// What the laboratory reports is what the runner reads: on the three documents of
/// a case, with their members in whatever order, the runner accepts and gives back
/// the metrics, the latency, the memory and the controls of the evaluation. Left
/// out are what gives no number for a metric, a latency of zero and empty payloads.
pub proof fn reported_evaluations_are_read_back(
    bundle: BundleModel,
    artifacts: ArtifactsModel,
    compilation: CompilationModel,
    readings: ShadowReadings,
    primary: JsonTree,
    digests: CandidateDigestsModel,
    backend: MaterializationStrategy,
    materialization_micros: u64,
    receiver_payload: int,
    candidate_payload: int,
    evaluation: JsonTree,
    candidate: JsonTree,
    receiver: JsonTree,
)
    requires
        metrics_are_numbers(compilation, readings),
        materialization_micros > 0,
        0 < receiver_payload + candidate_payload <= usize::MAX,
        same_members(
            evaluation,
            evaluation_document(
                shadow_input_of(
                    artifacts,
                    compilation,
                    readings,
                    digests.candidate_sha256,
                    backend,
                    materialization_micros,
                    receiver_payload,
                    candidate_payload,
                ),
                compilation,
            ),
        ),
        same_members(candidate, candidate_document(primary, digests, backend)),
        same_members(receiver, receiver_document(artifacts)),
    ensures
        ({
            let input = shadow_input_of(
                artifacts,
                compilation,
                readings,
                digests.candidate_sha256,
                backend,
                materialization_micros,
                receiver_payload,
                candidate_payload,
            );
            let output = output_outcome(bundle, Some(evaluation), Some(candidate), Some(receiver));
            &&& output is Ok
            &&& output->Ok_0.signals == (EvaluatedModel {
                functional_score: input.metrics.functional_score,
                functional_ci_lower: input.metrics.functional_ci_lower,
                preservation_score: input.metrics.preservation_score,
                identity_margin: input.metrics.identity_margin,
                numerical_stability: input.metrics.numerical_stability,
                normalized_risk: input.metrics.normalized_risk,
                latency_micros: input.latency_micros,
                resident_bytes: input.resident_bytes as u64,
                completed_controls: input.completed_controls,
            })
        }),
{
    let input = shadow_input_of(
        artifacts,
        compilation,
        readings,
        digests.candidate_sha256,
        backend,
        materialization_micros,
        receiver_payload,
        candidate_payload,
    );
    let controls = backend_controls(backend);
    reported_metrics_pass_the_runner(compilation, readings);
    lemma_evaluation_members(input, compilation);
    lemma_candidate_members(primary, digests, backend);
    lemma_receiver_members(artifacts);
    assert(controls.contains(ComparativeControl::UnmodifiedReceiver));
    assert(controls != Set::<ComparativeControl>::empty());
    lemma_controls_of_a_list(evaluation, controls, true);
    lemma_controls_of_a_list(candidate, controls, false);
    let none = Set::<ComparativeControl>::empty();
    assert(none.union(none).union(none) =~= none);
    assert(payload_controls(receiver, false) == Ok::<_, ErrorView>(none));
    assert(controls.union(controls).union(none) =~= controls);
}

/// What is written of a receiver are the digests of its snapshot, of its model and of
/// its layout, and its dimension, each under its own name.
pub proof fn receiver_payloads_name_what_they_bind(artifacts: ArtifactsModel)
    ensures
        ({
            let tree = receiver_document(artifacts);
            &&& member(tree, "schema"@) == Some(
                JsonTree::Text("cerebro.tidex.real_receiver_payload/v1"@),
            )
            &&& member(tree, "receiver_snapshot_sha256"@) == Some(
                JsonTree::Text(artifacts.snapshot.manifest_sha256),
            )
            &&& member(tree, "model_snapshot_sha256"@) == Some(
                JsonTree::Text(artifacts.snapshot.model_snapshot_sha256),
            )
            &&& member(tree, "receiver_layout_sha256"@) == Some(
                JsonTree::Text(artifacts.layout.manifest_sha256),
            )
            &&& member(tree, "parameter_dimension"@) == Some(
                count_tree(artifacts.profile.parameter_dimension),
            )
        }),
{
    reveal_strlit("schema");
    reveal_strlit("receiver_snapshot_sha256");
    reveal_strlit("model_snapshot_sha256");
    reveal_strlit("receiver_layout_sha256");
    reveal_strlit("parameter_dimension");
    let members = receiver_document(artifacts)->Object_0;
    assert(members.len() == 5);
    assert(members[0].0 == "schema"@);
    assert(members[1].0 == "receiver_snapshot_sha256"@);
    assert(members[2].0 == "model_snapshot_sha256"@);
    assert(members[3].0 == "receiver_layout_sha256"@);
    assert(members[4].0 == "parameter_dimension"@);
    lemma_lookup_at(members, 0);
    lemma_lookup_at(members, 1);
    lemma_lookup_at(members, 2);
    lemma_lookup_at(members, 3);
    lemma_lookup_at(members, 4);
}

/// What is written of a candidate is the candidate itself, the digest of the
/// alternative, that of the delta, and the controls of its backend, each under its own
/// name.
pub proof fn candidate_payloads_name_what_they_bind(
    primary: JsonTree,
    digests: CandidateDigestsModel,
    backend: MaterializationStrategy,
)
    ensures
        ({
            let tree = candidate_document(primary, digests, backend);
            &&& member(tree, "schema"@) == Some(
                JsonTree::Text("cerebro.tidex.real_materialization_payload/v1"@),
            )
            &&& member(tree, "primary_candidate"@) == Some(primary)
            &&& member(tree, "alternative_candidate_sha256"@) == Some(
                JsonTree::Text(digests.alternative_candidate_sha256),
            )
            &&& member(tree, "target_delta_sha256"@) == Some(
                JsonTree::Text(digests.target_delta_sha256),
            )
            &&& member(tree, "completed_controls"@) == Some(control_list(backend_controls(backend)))
        }),
{
    reveal_strlit("schema");
    reveal_strlit("primary_candidate");
    reveal_strlit("alternative_candidate_sha256");
    reveal_strlit("target_delta_sha256");
    reveal_strlit("completed_controls");
    let members = candidate_document(primary, digests, backend)->Object_0;
    assert(members.len() == 5);
    assert(members[0].0 == "schema"@);
    assert(members[1].0 == "primary_candidate"@);
    assert(members[2].0 == "alternative_candidate_sha256"@);
    assert(members[3].0 == "target_delta_sha256"@);
    assert(members[4].0 == "completed_controls"@);
    lemma_lookup_at(members, 0);
    lemma_lookup_at(members, 1);
    lemma_lookup_at(members, 2);
    lemma_lookup_at(members, 3);
    lemma_lookup_at(members, 4);
}

/// What is written of the compiler are its own numbers, each under its own name.
pub proof fn compiler_metrics_name_their_numbers(compilation: CompilationModel)
    ensures
        ({
            let tree = compiler_metrics_tree(compilation);
            &&& member(tree, "functional_relative_error"@) == Some(
                number_tree(compilation.functional_relative_error),
            )
            &&& member(tree, "correct_cosine"@) == Some(number_tree(compilation.correct_cosine))
            &&& member(tree, "maximum_wrong_cosine"@) == Some(
                number_tree(compilation.maximum_wrong_cosine),
            )
            &&& member(tree, "decoder_loo_r2"@) == Some(number_tree(compilation.decoder_loo_r2))
            &&& member(tree, "encoder_loo_r2"@) == Some(number_tree(compilation.encoder_loo_r2))
            &&& member(tree, "trust_region_scale"@) == Some(
                number_tree(compilation.trust_region.scale),
            )
            &&& member(tree, "accepted_quadratic_cost"@) == Some(
                number_tree(compilation.trust_region.accepted_quadratic_cost),
            )
        }),
{
    reveal_strlit("functional_relative_error");
    reveal_strlit("correct_cosine");
    reveal_strlit("maximum_wrong_cosine");
    reveal_strlit("decoder_loo_r2");
    reveal_strlit("encoder_loo_r2");
    reveal_strlit("trust_region_scale");
    reveal_strlit("accepted_quadratic_cost");
    let members = compiler_metrics_tree(compilation)->Object_0;
    assert(members.len() == 7);
    assert(members[0].0 == "functional_relative_error"@);
    assert(members[1].0 == "correct_cosine"@ && members[1].0[0] == 'c');
    assert(members[2].0 == "maximum_wrong_cosine"@);
    assert(members[3].0 == "decoder_loo_r2"@ && members[3].0[0] == 'd');
    assert(members[4].0 == "encoder_loo_r2"@ && members[4].0[0] == 'e');
    assert(members[5].0 == "trust_region_scale"@);
    assert(members[6].0 == "accepted_quadratic_cost"@);
    lemma_lookup_at(members, 0);
    lemma_lookup_at(members, 1);
    lemma_lookup_at(members, 2);
    lemma_lookup_at(members, 3);
    lemma_lookup_at(members, 4);
    lemma_lookup_at(members, 5);
    lemma_lookup_at(members, 6);
}

/// A finite number is written as itself, and what is no finite number as null. Counts
/// and numbers are told apart.
pub proof fn numbers_are_written_as_they_are(number: Scalar, count: u64)
    ensures
        number.finite() ==> number_tree(number) == (JsonTree::Number {
            unsigned: None,
            double: Some(number),
        }),
        !number.finite() ==> number_tree(number) is Null,
        count_tree(count) == (JsonTree::Number { unsigned: Some(count), double: None }),
{
}

/// What is written of an evaluation are its metrics and the controls of its backend,
/// each under its own name, beside the compiler's own numbers.
pub proof fn evaluation_payloads_name_what_they_report(
    input: ShadowInputModel,
    compilation: CompilationModel,
)
    ensures
        ({
            let tree = evaluation_document(input, compilation);
            &&& member(tree, "schema"@) == Some(
                JsonTree::Text("cerebro.tidex.real_shadow_evaluation_payload/v1"@),
            )
            &&& member(tree, "functional_score"@) == Some(
                number_tree(input.metrics.functional_score),
            )
            &&& member(tree, "functional_ci_lower"@) == Some(
                number_tree(input.metrics.functional_ci_lower),
            )
            &&& member(tree, "preservation_score"@) == Some(
                number_tree(input.metrics.preservation_score),
            )
            &&& member(tree, "identity_margin"@) == Some(number_tree(input.metrics.identity_margin))
            &&& member(tree, "numerical_stability"@) == Some(
                number_tree(input.metrics.numerical_stability),
            )
            &&& member(tree, "normalized_risk"@) == Some(number_tree(input.metrics.normalized_risk))
            &&& member(tree, "latency_micros"@) == Some(count_tree(input.latency_micros))
            &&& member(tree, "resident_bytes"@) == Some(count_tree(input.resident_bytes as u64))
            &&& member(tree, "completed_controls"@) == Some(control_list(input.completed_controls))
            &&& member(tree, "compiler_metrics"@) == Some(compiler_metrics_tree(compilation))
        }),
{
    lemma_evaluation_members(input, compilation);
    reveal_strlit("schema");
    reveal_strlit("functional_score");
    reveal_strlit("functional_ci_lower");
    reveal_strlit("preservation_score");
    reveal_strlit("identity_margin");
    reveal_strlit("numerical_stability");
    reveal_strlit("normalized_risk");
    reveal_strlit("latency_micros");
    reveal_strlit("resident_bytes");
    reveal_strlit("completed_controls");
    reveal_strlit("compiler_metrics");
    let members = evaluation_document(input, compilation)->Object_0;
    assert(members[0].0 == "schema"@);
    assert(members[1].0 == "functional_score"@ && members[1].0[0] == 'f');
    assert(members[2].0 == "functional_ci_lower"@);
    assert(members[3].0 == "preservation_score"@);
    assert(members[4].0 == "identity_margin"@);
    assert(members[5].0 == "numerical_stability"@);
    assert(members[6].0 == "normalized_risk"@);
    assert(members[7].0 == "latency_micros"@);
    assert(members[8].0 == "resident_bytes"@);
    assert(members[9].0 == "completed_controls"@);
    assert(members[10].0 == "compiler_metrics"@ && members[10].0[0] == 'c');
    lemma_lookup_at(members, 0);
    lemma_lookup_at(members, 10);
}

} // verus!
