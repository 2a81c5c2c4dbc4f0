//! Inert candidates for receiver-coordinate experiments.
//!
//! A candidate is bound to its plan and its coordinates by their digests. It has
//! no model format, touches no tensor and cannot be activated.

use crate::error::{BrainError, BrainResult, ErrorView};
use crate::identity::Sha256Digest;
use crate::order::{outcome, plain};
use crate::receiver_profile::{
    MaterializationPlan, MaterializationStrategy, PlanLifecycle, PlanModel, ProfileModel,
    ReceiverProfile,
};
use crate::scalar::{all_finite, finite_row, Scalar};
use crate::text::text_eq;
use vstd::prelude::*;

verus! {

/// Receiver coordinates, bound to the plan that they belong to.
#[derive(Debug)]
pub struct ShadowReceiverCoordinateCandidate {
    pub schema: String,
    pub plan_sha256: Sha256Digest,
    pub coordinate_sha256: Sha256Digest,
    pub receiver_parameter_dimension: u64,
    pub coordinates: Vec<Scalar>,
}

/// The model of a [`ShadowReceiverCoordinateCandidate`].
pub struct CandidateModel {
    pub schema: Seq<char>,
    pub plan_sha256: Seq<char>,
    pub coordinate_sha256: Seq<char>,
    pub receiver_parameter_dimension: u64,
    pub coordinates: Seq<Scalar>,
}

impl View for ShadowReceiverCoordinateCandidate {
    type V = CandidateModel;

    open spec fn view(&self) -> CandidateModel {
        CandidateModel {
            schema: self.schema@,
            plan_sha256: self.plan_sha256@,
            coordinate_sha256: self.coordinate_sha256@,
            receiver_parameter_dimension: self.receiver_parameter_dimension,
            coordinates: self.coordinates@,
        }
    }
}

/// What the host reports of a profile, a plan and coordinates.
#[derive(Debug)]
pub struct ShadowEvidence {
    /// Whether the profile is valid.
    pub profile: BrainResult<()>,
    pub profile_sha256: BrainResult<Sha256Digest>,
    /// The digest of the serialised coordinates, in the domain of receiver
    /// coordinates.
    pub coordinate_sha256: BrainResult<Sha256Digest>,
    /// The digest of the serialised plan, in the domain of materialization plans.
    pub plan_sha256: BrainResult<Sha256Digest>,
}

/// The model of [`ShadowEvidence`].
pub struct ShadowEvidenceModel {
    pub profile: Result<(), ErrorView>,
    pub profile_sha256: Result<Seq<char>, ErrorView>,
    pub coordinate_sha256: Result<Seq<char>, ErrorView>,
    pub plan_sha256: Result<Seq<char>, ErrorView>,
}

impl View for ShadowEvidence {
    type V = ShadowEvidenceModel;

    open spec fn view(&self) -> ShadowEvidenceModel {
        ShadowEvidenceModel {
            profile: plain(self.profile),
            profile_sha256: outcome(self.profile_sha256),
            coordinate_sha256: outcome(self.coordinate_sha256),
            plan_sha256: outcome(self.plan_sha256),
        }
    }
}

/// The candidate for a plan, or why there is none. The digest of the profile
/// matters only for a plan of the right schema, the other two only for an
/// admissible candidate.
pub open spec fn candidate_outcome(
    profile: ProfileModel,
    plan: PlanModel,
    coordinates: Seq<Scalar>,
    evidence: ShadowEvidenceModel,
) -> Result<CandidateModel, ErrorView> {
    let invalid = Err(ErrorView::Invalid("shadow_receiver_coordinate_candidate_invalid"@));
    match evidence.profile {
        Err(error) => Err(error),
        Ok(_) => if plan.schema != "cerebro.tidex.materialization_plan/v1"@ {
            invalid
        } else {
            match evidence.profile_sha256 {
                Err(error) => Err(error),
                Ok(profile_sha256) => if plan.receiver_profile_sha256 != profile_sha256
                    || plan.lifecycle != PlanLifecycle::ShadowOnly || plan.strategy
                    != MaterializationStrategy::ReceiverCoordinates || coordinates.len()
                    != profile.parameter_dimension || !all_finite(coordinates) {
                    invalid
                } else {
                    match (evidence.coordinate_sha256, evidence.plan_sha256) {
                        (Err(error), _) => Err(error),
                        (_, Err(error)) => Err(error),
                        (Ok(coordinate_sha256), Ok(plan_sha256)) => Ok(
                            CandidateModel {
                                schema: "cerebro.tidex.shadow_receiver_coordinate_candidate/v1"@,
                                plan_sha256,
                                coordinate_sha256,
                                receiver_parameter_dimension: profile.parameter_dimension,
                                coordinates,
                            },
                        ),
                    }
                },
            }
        },
    }
}

/// Constructs an inert candidate.
pub fn materialize_receiver_coordinates_shadow(
    profile: &ReceiverProfile,
    plan: &MaterializationPlan,
    coordinates: Vec<Scalar>,
    evidence: ShadowEvidence,
) -> (candidate: BrainResult<ShadowReceiverCoordinateCandidate>)
    ensures
        outcome(candidate) == candidate_outcome(profile@, plan@, coordinates@, evidence@),
{
    if let Err(error) = evidence.profile {
        return Err(error);
    }
    if !text_eq(plan.schema.as_str(), "cerebro.tidex.materialization_plan/v1") {
        return Err(BrainError::invalid("shadow_receiver_coordinate_candidate_invalid"));
    }
    let profile_sha256 = match evidence.profile_sha256 {
        Ok(digest) => digest,
        Err(error) => {
            return Err(error);
        },
    };
    if !plan.receiver_profile_sha256.same(&profile_sha256) || plan.lifecycle
        != PlanLifecycle::ShadowOnly || plan.strategy != MaterializationStrategy::ReceiverCoordinates
        || coordinates.len() as u64 != profile.parameter_dimension || !finite_row(&coordinates) {
        return Err(BrainError::invalid("shadow_receiver_coordinate_candidate_invalid"));
    }
    let coordinate_sha256 = match evidence.coordinate_sha256 {
        Ok(digest) => digest,
        Err(error) => {
            return Err(error);
        },
    };
    let plan_sha256 = match evidence.plan_sha256 {
        Ok(digest) => digest,
        Err(error) => {
            return Err(error);
        },
    };
    Ok(
        ShadowReceiverCoordinateCandidate {
            schema: "cerebro.tidex.shadow_receiver_coordinate_candidate/v1".to_owned(),
            plan_sha256,
            coordinate_sha256,
            receiver_parameter_dimension: profile.parameter_dimension,
            coordinates,
        },
    )
}

/// A candidate exists only for a shadow-only plan for receiver coordinates that
/// was made for this very profile, and holds one finite number per parameter.
pub proof fn candidates_come_from_shadow_plans_only(
    profile: ProfileModel,
    plan: PlanModel,
    coordinates: Seq<Scalar>,
    evidence: ShadowEvidenceModel,
)
    ensures
        candidate_outcome(profile, plan, coordinates, evidence) matches Ok(candidate) ==> {
            &&& plan.lifecycle == PlanLifecycle::ShadowOnly
            &&& plan.strategy == MaterializationStrategy::ReceiverCoordinates
            &&& evidence.profile_sha256 == Ok::<_, ErrorView>(plan.receiver_profile_sha256)
            &&& candidate.coordinates == coordinates
            &&& candidate.coordinates.len() == profile.parameter_dimension
            &&& all_finite(candidate.coordinates)
        },
{
}

/// A candidate is made exactly where a valid profile, a plan of the right kind that
/// is bound to that profile and stays in the shadow, and as many finite coordinates
/// as the receiver has parameters come together; it carries these coordinates and
/// the digests of the plan and of the coordinates, each in its place.
pub proof fn candidates_carry_what_they_were_made_from(
    profile: ProfileModel,
    plan: PlanModel,
    coordinates: Seq<Scalar>,
    evidence: ShadowEvidenceModel,
)
    ensures
        ({
            let outcome = candidate_outcome(profile, plan, coordinates, evidence);
            let fitting = {
                &&& plan.schema == "cerebro.tidex.materialization_plan/v1"@
                &&& evidence.profile_sha256 == Ok::<_, ErrorView>(plan.receiver_profile_sha256)
                &&& plan.lifecycle == PlanLifecycle::ShadowOnly
                &&& plan.strategy == MaterializationStrategy::ReceiverCoordinates
                &&& coordinates.len() == profile.parameter_dimension
                &&& forall|i: int|
                    0 <= i < coordinates.len() ==> (#[trigger] coordinates[i]).finite()
            };
            &&& outcome is Ok <==> evidence.profile is Ok && fitting
                && evidence.coordinate_sha256 is Ok && evidence.plan_sha256 is Ok
            &&& outcome matches Ok(candidate) ==> {
                &&& candidate.schema == "cerebro.tidex.shadow_receiver_coordinate_candidate/v1"@
                &&& evidence.plan_sha256 == Ok::<_, ErrorView>(candidate.plan_sha256)
                &&& evidence.coordinate_sha256 == Ok::<_, ErrorView>(candidate.coordinate_sha256)
                &&& candidate.receiver_parameter_dimension == profile.parameter_dimension
                &&& candidate.coordinates == coordinates
            }
            &&& evidence.profile is Err ==> outcome == Err::<CandidateModel, _>(
                evidence.profile->Err_0,
            )
            &&& evidence.profile is Ok && evidence.profile_sha256 is Ok && !fitting ==> outcome
                == Err::<CandidateModel, _>(
                ErrorView::Invalid("shadow_receiver_coordinate_candidate_invalid"@),
            )
        }),
{
}

} // verus!
