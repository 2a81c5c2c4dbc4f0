//! What a receiver model declares about itself.

use crate::identity::{ArchitectureId, ModelId, Sha256Digest, TensorId};
use crate::order::{
    keys_are_totally_ordered, take_one_more, text_key, text_keys_are_faithful, text_standing, views,
    views_push, KeyModel, Keyed, Standing,
};
use crate::text::text_eq;
use vstd::prelude::*;

verus! {

broadcast use views_push;

/// The structural family of a receiver model.
#[derive(Debug)]
pub enum ReceiverArchitecture {
    /// Nothing is declared or recognised.
    Unknown,
    Transformer,
    /// Another family, by its wire name.
    Other(String),
}

/// The model of a [`ReceiverArchitecture`].
pub enum ArchitectureModel {
    Unknown,
    Transformer,
    Other(Seq<char>),
}

impl View for ReceiverArchitecture {
    type V = ArchitectureModel;

    open spec fn view(&self) -> ArchitectureModel {
        match self {
            ReceiverArchitecture::Unknown => ArchitectureModel::Unknown,
            ReceiverArchitecture::Transformer => ArchitectureModel::Transformer,
            ReceiverArchitecture::Other(name) => ArchitectureModel::Other(name@),
        }
    }
}

impl Clone for ReceiverArchitecture {
    fn clone(&self) -> (copy: Self)
        ensures
            copy == *self,
    {
        match self {
            ReceiverArchitecture::Unknown => ReceiverArchitecture::Unknown,
            ReceiverArchitecture::Transformer => ReceiverArchitecture::Transformer,
            ReceiverArchitecture::Other(name) => ReceiverArchitecture::Other(name.clone()),
        }
    }
}

impl ReceiverArchitecture {
    /// Whether two families are the same.
    pub fn same(&self, other: &Self) -> (same: bool)
        ensures
            same == (self@ == other@),
    {
        match (self, other) {
            (ReceiverArchitecture::Unknown, ReceiverArchitecture::Unknown) => true,
            (ReceiverArchitecture::Transformer, ReceiverArchitecture::Transformer) => true,
            (ReceiverArchitecture::Other(a), ReceiverArchitecture::Other(b)) => text_eq(
                a.as_str(),
                b.as_str(),
            ),
            _ => false,
        }
    }

    /// Whether nothing is declared or recognised.
    pub fn is_unknown(&self) -> (unknown: bool)
        ensures
            unknown == (self@ is Unknown),
    {
        match self {
            ReceiverArchitecture::Unknown => true,
            _ => false,
        }
    }
}

/// What a capability reads and writes.
#[derive(Debug)]
pub enum CapabilityModality {
    Text,
    /// Another modality, by its wire name.
    Other(String),
}

/// The model of a [`CapabilityModality`].
pub enum ModalityModel {
    Text,
    Other(Seq<char>),
}

impl View for CapabilityModality {
    type V = ModalityModel;

    open spec fn view(&self) -> ModalityModel {
        match self {
            CapabilityModality::Text => ModalityModel::Text,
            CapabilityModality::Other(name) => ModalityModel::Other(name@),
        }
    }
}

impl Clone for CapabilityModality {
    fn clone(&self) -> (copy: Self)
        ensures
            copy == *self,
    {
        match self {
            CapabilityModality::Text => CapabilityModality::Text,
            CapabilityModality::Other(name) => CapabilityModality::Other(name.clone()),
        }
    }
}

impl KeyModel for ModalityModel {
    open spec fn key(self) -> Seq<int> {
        match self {
            ModalityModel::Text => seq![0int],
            ModalityModel::Other(name) => seq![1int] + text_key(name),
        }
    }
}

impl Keyed for CapabilityModality {
    fn stand(&self, other: &Self) -> (standing: Standing) {
        proof {
            let a = self@.key();
            let b = other@.key();
            assert(a[0] == (if self@ is Text { 0int } else { 1int }));
            assert(b[0] == (if other@ is Text { 0int } else { 1int }));
            if let (ModalityModel::Other(x), ModalityModel::Other(y)) = (self@, other@) {
                assert(a.skip(1) =~= text_key(x));
                assert(b.skip(1) =~= text_key(y));
                assert(a == b <==> text_key(x) == text_key(y));
            }
            keys_are_totally_ordered(a, b);
        }
        match (self, other) {
            (CapabilityModality::Text, CapabilityModality::Text) => Standing::Same,
            (CapabilityModality::Text, CapabilityModality::Other(_)) => Standing::Before,
            (CapabilityModality::Other(_), CapabilityModality::Text) => Standing::After,
            (CapabilityModality::Other(a), CapabilityModality::Other(b)) => text_standing(
                a.as_str(),
                b.as_str(),
            ),
        }
    }
}

/// Modalities with the same key are the same.
pub proof fn modality_keys_are_faithful(a: ModalityModel, b: ModalityModel)
    ensures
        a.key() == b.key() <==> a == b,
{
    if a.key() == b.key() {
        assert(a.key()[0] == b.key()[0]);
        if let (ModalityModel::Other(x), ModalityModel::Other(y)) = (a, b) {
            assert(a.key().skip(1) =~= text_key(x));
            assert(b.key().skip(1) =~= text_key(y));
            text_keys_are_faithful(x, y);
        }
    }
}

/// How a compiled capability is put into a receiver.
#[derive(Debug, Clone, Copy, PartialEq, Eq, Structural)]
pub enum MaterializationStrategy {
    ReceiverCoordinates,
    DenseDelta,
    LowRank,
    SparseDelta,
    ActivationSteering,
}

impl View for MaterializationStrategy {
    type V = MaterializationStrategy;

    open spec fn view(&self) -> MaterializationStrategy {
        *self
    }
}

impl MaterializationStrategy {
    /// The position of a strategy in the order of the strategies.
    pub open spec fn rank(self) -> int {
        match self {
            MaterializationStrategy::ReceiverCoordinates => 0,
            MaterializationStrategy::DenseDelta => 1,
            MaterializationStrategy::LowRank => 2,
            MaterializationStrategy::SparseDelta => 3,
            MaterializationStrategy::ActivationSteering => 4,
        }
    }

    /// The position of a strategy in the order of the strategies.
    pub fn position(self) -> (position: u8)
        ensures
            position == self.rank(),
    {
        match self {
            MaterializationStrategy::ReceiverCoordinates => 0,
            MaterializationStrategy::DenseDelta => 1,
            MaterializationStrategy::LowRank => 2,
            MaterializationStrategy::SparseDelta => 3,
            MaterializationStrategy::ActivationSteering => 4,
        }
    }
}

impl KeyModel for MaterializationStrategy {
    open spec fn key(self) -> Seq<int> {
        seq![self.rank()]
    }
}

impl Keyed for MaterializationStrategy {
    fn stand(&self, other: &Self) -> (standing: Standing) {
        let own: u8 = self.position();
        let others: u8 = other.position();
        proof {
            let a = self@.key();
            let b = other@.key();
            assert(a[0] == own && b[0] == others);
            if own == others {
                assert(a =~= b);
            }
            keys_are_totally_ordered(a, b);
        }
        if own < others {
            Standing::Before
        } else if own == others {
            Standing::Same
        } else {
            Standing::After
        }
    }
}

/// How far a plan may go.
#[derive(Debug, Clone, Copy, PartialEq, Eq, Structural)]
pub enum PlanLifecycle {
    /// The plan may only be studied beside the receiver.
    ShadowOnly,
    /// Any other stage.
    Other,
}

/// One tensor of a receiver that a plan may touch.
#[derive(Debug)]
pub struct ReceiverRegion {
    pub tensor_id: TensorId,
    pub parameter_count: u64,
    pub supported_strategies: Vec<MaterializationStrategy>,
}

/// The model of a [`ReceiverRegion`].
pub struct RegionModel {
    pub tensor_id: Seq<char>,
    pub parameter_count: u64,
    pub supported_strategies: Seq<MaterializationStrategy>,
}

impl View for ReceiverRegion {
    type V = RegionModel;

    open spec fn view(&self) -> RegionModel {
        RegionModel {
            tensor_id: self.tensor_id@,
            parameter_count: self.parameter_count,
            supported_strategies: self.supported_strategies@,
        }
    }
}

/// What is known of a receiver before anything is compiled for it.
#[derive(Debug)]
pub struct ReceiverProfile {
    pub schema: String,
    pub model_id: ModelId,
    pub architecture_id: ArchitectureId,
    pub architecture: ReceiverArchitecture,
    pub modalities: Vec<CapabilityModality>,
    pub supports_persistent_state: bool,
    pub parameter_dimension: u64,
    pub regions: Vec<ReceiverRegion>,
}

/// The model of a [`ReceiverProfile`].
pub struct ProfileModel {
    pub schema: Seq<char>,
    pub model_id: Seq<char>,
    pub architecture_id: Seq<char>,
    pub architecture: ArchitectureModel,
    pub modalities: Seq<ModalityModel>,
    pub supports_persistent_state: bool,
    pub parameter_dimension: u64,
    pub regions: Seq<RegionModel>,
}

impl View for ReceiverProfile {
    type V = ProfileModel;

    open spec fn view(&self) -> ProfileModel {
        ProfileModel {
            schema: self.schema@,
            model_id: self.model_id@,
            architecture_id: self.architecture_id@,
            architecture: self.architecture@,
            modalities: views(self.modalities@),
            supports_persistent_state: self.supports_persistent_state,
            parameter_dimension: self.parameter_dimension,
            regions: views(self.regions@),
        }
    }
}

impl ReceiverProfile {
    /// A copy of the profile.
    pub fn duplicate(&self) -> (copy: Self)
        ensures
            copy@ == self@,
    {
        let mut regions: Vec<ReceiverRegion> = Vec::new();
        let ghost models = views(self.regions@);
        assert(views(regions@) =~= models.take(0));
        for i in 0..self.regions.len()
            invariant
                models == views(self.regions@),
                views(regions@) == models.take(i as int),
        {
            let region = &self.regions[i];
            regions.push(
                ReceiverRegion {
                    tensor_id: region.tensor_id.clone(),
                    parameter_count: region.parameter_count,
                    supported_strategies: strategies_copy(&region.supported_strategies),
                },
            );
            proof {
                take_one_more(models, i as int);
                assert(regions@.last()@ == models[i as int]);
            }
        }
        assert(models.take(models.len() as int) =~= models);
        ReceiverProfile {
            schema: self.schema.clone(),
            model_id: self.model_id.clone(),
            architecture_id: self.architecture_id.clone(),
            architecture: self.architecture.clone(),
            modalities: modalities_copy(&self.modalities),
            supports_persistent_state: self.supports_persistent_state,
            parameter_dimension: self.parameter_dimension,
            regions,
        }
    }
}

/// A plan to put a compiled capability into a receiver.
#[derive(Debug)]
pub struct MaterializationPlan {
    pub schema: String,
    pub receiver_profile_sha256: Sha256Digest,
    pub lifecycle: PlanLifecycle,
    pub strategy: MaterializationStrategy,
    /// Everything else that the plan states, in its canonical text.
    pub details: String,
}

/// The model of a [`MaterializationPlan`].
pub struct PlanModel {
    pub schema: Seq<char>,
    pub receiver_profile_sha256: Seq<char>,
    pub lifecycle: PlanLifecycle,
    pub strategy: MaterializationStrategy,
    pub details: Seq<char>,
}

impl View for MaterializationPlan {
    type V = PlanModel;

    open spec fn view(&self) -> PlanModel {
        PlanModel {
            schema: self.schema@,
            receiver_profile_sha256: self.receiver_profile_sha256@,
            lifecycle: self.lifecycle,
            strategy: self.strategy,
            details: self.details@,
        }
    }
}

impl MaterializationPlan {
    /// Whether two plans state the same.
    pub fn same(&self, other: &Self) -> (same: bool)
        ensures
            same == (self@ == other@),
    {
        text_eq(self.schema.as_str(), other.schema.as_str()) && self.receiver_profile_sha256.same(
            &other.receiver_profile_sha256,
        ) && self.lifecycle == other.lifecycle && self.strategy == other.strategy && text_eq(
            self.details.as_str(),
            other.details.as_str(),
        )
    }

    /// A copy of the plan.
    pub fn duplicate(&self) -> (copy: Self)
        ensures
            copy@ == self@,
    {
        MaterializationPlan {
            schema: self.schema.clone(),
            receiver_profile_sha256: self.receiver_profile_sha256.clone(),
            lifecycle: self.lifecycle,
            strategy: self.strategy,
            details: self.details.clone(),
        }
    }
}

/// What an assessment of a receiver against the requirements of a capability
/// states, in its canonical text.
#[derive(Debug)]
pub struct CompatibilityAssessment {
    pub text: String,
}

impl View for CompatibilityAssessment {
    type V = Seq<char>;

    open spec fn view(&self) -> Seq<char> {
        self.text@
    }
}

/// A copy of a list of strategies.
pub fn strategies_copy(list: &Vec<MaterializationStrategy>) -> (copy: Vec<MaterializationStrategy>)
    ensures
        copy@ == list@,
{
    let mut copy: Vec<MaterializationStrategy> = Vec::new();
    for i in 0..list.len()
        invariant
            copy@ == list@.take(i as int),
    {
        copy.push(list[i]);
        assert(list@.take(i + 1) == list@.take(i as int).push(list@[i as int]));
    }
    assert(list@.take(list@.len() as int) == list@);
    copy
}

/// A copy of a list of modalities.
pub fn modalities_copy(list: &Vec<CapabilityModality>) -> (copy: Vec<CapabilityModality>)
    ensures
        copy@ == list@,
{
    let mut copy: Vec<CapabilityModality> = Vec::new();
    for i in 0..list.len()
        invariant
            copy@ == list@.take(i as int),
    {
        copy.push(list[i].clone());
        assert(list@.take(i + 1) == list@.take(i as int).push(list@[i as int]));
    }
    assert(list@.take(list@.len() as int) == list@);
    copy
}

/// Strategies are ordered as they are listed here, and each has the rank of its place.
pub proof fn strategies_rank_in_their_order(a: MaterializationStrategy, b: MaterializationStrategy)
    ensures
        0 <= a.rank() < 5,
        seq![
            MaterializationStrategy::ReceiverCoordinates,
            MaterializationStrategy::DenseDelta,
            MaterializationStrategy::LowRank,
            MaterializationStrategy::SparseDelta,
            MaterializationStrategy::ActivationSteering,
        ][a.rank()] == a,
        a.rank() == b.rank() <==> a == b,
        a.key() == b.key() <==> a == b,
{
    if a.key() == b.key() {
        assert(a.key()[0] == a.rank() && b.key()[0] == b.rank());
    }
}

} // verus!
