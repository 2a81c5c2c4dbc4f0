//! Identities and digests.
//!
//! The grammar of an identity and the computation of a digest belong to the
//! host; here both are opaque texts that are carried, compared and ordered.

use crate::order::{text_standing, Keyed, Standing};
use crate::text::text_eq;
use vstd::prelude::*;

verus! {

/// A SHA-256 digest in its textual form.
#[derive(Debug)]
pub struct Sha256Digest {
    pub text: String,
}

impl View for Sha256Digest {
    type V = Seq<char>;

    open spec fn view(&self) -> Seq<char> {
        self.text@
    }
}

impl Clone for Sha256Digest {
    fn clone(&self) -> (copy: Self)
        ensures
            copy == *self,
    {
        Sha256Digest { text: self.text.clone() }
    }
}

impl Sha256Digest {
    /// The text of the digest.
    pub fn as_str(&self) -> (text: &str)
        ensures
            text@ == self@,
    {
        self.text.as_str()
    }

    /// Whether two digests are the same text.
    pub fn same(&self, other: &Self) -> (same: bool)
        ensures
            same == (self@ == other@),
    {
        text_eq(self.text.as_str(), other.text.as_str())
    }

    /// The digest that stands where none is known yet.
    pub fn zero() -> (digest: Self)
        ensures
            digest@ == zero_digest(),
    {
        Sha256Digest {
            text: "0000000000000000000000000000000000000000000000000000000000000000".to_owned(),
        }
    }
}

/// The text of the digest that stands where none is known yet.
pub open spec fn zero_digest() -> Seq<char> {
    "0000000000000000000000000000000000000000000000000000000000000000"@
}

/// The digest that identifies a captured system envelope.
#[derive(Debug)]
pub struct SystemEnvelopeDigest {
    pub text: String,
}

impl View for SystemEnvelopeDigest {
    type V = Seq<char>;

    open spec fn view(&self) -> Seq<char> {
        self.text@
    }
}

impl Clone for SystemEnvelopeDigest {
    fn clone(&self) -> (copy: Self)
        ensures
            copy == *self,
    {
        SystemEnvelopeDigest { text: self.text.clone() }
    }
}

impl SystemEnvelopeDigest {
    /// The text of the digest.
    pub fn as_str(&self) -> (text: &str)
        ensures
            text@ == self@,
    {
        self.text.as_str()
    }

    /// Whether two digests are the same text.
    pub fn same(&self, other: &Self) -> (same: bool)
        ensures
            same == (self@ == other@),
    {
        text_eq(self.text.as_str(), other.text.as_str())
    }
}

/// The digest that identifies a closed capability representation.
#[derive(Debug)]
pub struct CapabilityIrDigest {
    pub text: String,
}

impl View for CapabilityIrDigest {
    type V = Seq<char>;

    open spec fn view(&self) -> Seq<char> {
        self.text@
    }
}

impl Clone for CapabilityIrDigest {
    fn clone(&self) -> (copy: Self)
        ensures
            copy == *self,
    {
        CapabilityIrDigest { text: self.text.clone() }
    }
}

impl CapabilityIrDigest {
    /// The text of the digest.
    pub fn as_str(&self) -> (text: &str)
        ensures
            text@ == self@,
    {
        self.text.as_str()
    }

    /// Whether two digests are the same text.
    pub fn same(&self, other: &Self) -> (same: bool)
        ensures
            same == (self@ == other@),
    {
        text_eq(self.text.as_str(), other.text.as_str())
    }
}

/// The identity of a tensor of a checkpoint.
#[derive(Debug)]
pub struct TensorId {
    pub text: String,
}

impl View for TensorId {
    type V = Seq<char>;

    open spec fn view(&self) -> Seq<char> {
        self.text@
    }
}

impl Clone for TensorId {
    fn clone(&self) -> (copy: Self)
        ensures
            copy == *self,
    {
        TensorId { text: self.text.clone() }
    }
}

impl TensorId {
    /// The text of the identity.
    pub fn as_str(&self) -> (text: &str)
        ensures
            text@ == self@,
    {
        self.text.as_str()
    }

    /// Whether two identities are the same text.
    pub fn same(&self, other: &Self) -> (same: bool)
        ensures
            same == (self@ == other@),
    {
        text_eq(self.text.as_str(), other.text.as_str())
    }
}

impl Keyed for TensorId {
    fn stand(&self, other: &Self) -> (standing: Standing) {
        text_standing(self.text.as_str(), other.text.as_str())
    }
}

/// The identity of a receiver model.
#[derive(Debug)]
pub struct ModelId {
    pub text: String,
}

impl View for ModelId {
    type V = Seq<char>;

    open spec fn view(&self) -> Seq<char> {
        self.text@
    }
}

impl Clone for ModelId {
    fn clone(&self) -> (copy: Self)
        ensures
            copy == *self,
    {
        ModelId { text: self.text.clone() }
    }
}

impl ModelId {
    /// The text of the identity.
    pub fn as_str(&self) -> (text: &str)
        ensures
            text@ == self@,
    {
        self.text.as_str()
    }

    /// Whether two identities are the same text.
    pub fn same(&self, other: &Self) -> (same: bool)
        ensures
            same == (self@ == other@),
    {
        text_eq(self.text.as_str(), other.text.as_str())
    }
}

/// The identity of a receiver architecture.
#[derive(Debug)]
pub struct ArchitectureId {
    pub text: String,
}

impl View for ArchitectureId {
    type V = Seq<char>;

    open spec fn view(&self) -> Seq<char> {
        self.text@
    }
}

impl Clone for ArchitectureId {
    fn clone(&self) -> (copy: Self)
        ensures
            copy == *self,
    {
        ArchitectureId { text: self.text.clone() }
    }
}

impl ArchitectureId {
    /// The text of the identity.
    pub fn as_str(&self) -> (text: &str)
        ensures
            text@ == self@,
    {
        self.text.as_str()
    }

    /// Whether two identities are the same text.
    pub fn same(&self, other: &Self) -> (same: bool)
        ensures
            same == (self@ == other@),
    {
        text_eq(self.text.as_str(), other.text.as_str())
    }
}

/// The identity of a capability.
#[derive(Debug)]
pub struct CapabilityId {
    pub text: String,
}

impl View for CapabilityId {
    type V = Seq<char>;

    open spec fn view(&self) -> Seq<char> {
        self.text@
    }
}

impl Clone for CapabilityId {
    fn clone(&self) -> (copy: Self)
        ensures
            copy == *self,
    {
        CapabilityId { text: self.text.clone() }
    }
}

impl CapabilityId {
    /// The text of the identity.
    pub fn as_str(&self) -> (text: &str)
        ensures
            text@ == self@,
    {
        self.text.as_str()
    }

    /// Whether two identities are the same text.
    pub fn same(&self, other: &Self) -> (same: bool)
        ensures
            same == (self@ == other@),
    {
        text_eq(self.text.as_str(), other.text.as_str())
    }
}

/// What a digest is a digest of. Digests of different domains never stand for
/// each other.
#[derive(Debug, Clone, Copy, PartialEq, Eq, Structural)]
pub enum DigestDomain {
    SafeTensorsSnapshot,
    InspectedReceiverArtifacts,
    CompilationRequest,
    PlanningRequest,
    ShadowMaterializationPlan,
    ShadowReceiverCoordinates,
}

impl DigestDomain {
    /// The label that is digested before the content.
    pub open spec fn label_text(self) -> Seq<char> {
        match self {
            DigestDomain::SafeTensorsSnapshot => "CEREBRO:TIDEX:SAFETENSORS-SNAPSHOT:v1\0"@,
            DigestDomain::InspectedReceiverArtifacts =>
                "CEREBRO:TIDEX:INSPECTED-RECEIVER-ARTIFACTS:v1\0"@,
            DigestDomain::CompilationRequest =>
                "CEREBRO:TIDEX:UNIVERSAL-CAPABILITY-COMPILATION-REQUEST:v1\0"@,
            DigestDomain::PlanningRequest =>
                "CEREBRO:TIDEX:UNIVERSAL-CAPABILITY-PLANNING-REQUEST:v1\0"@,
            DigestDomain::ShadowMaterializationPlan =>
                "CEREBRO:TIDEX:SHADOW-MATERIALIZATION-PLAN:v1\0"@,
            DigestDomain::ShadowReceiverCoordinates =>
                "CEREBRO:TIDEX:SHADOW-RECEIVER-COORDINATES:v1\0"@,
        }
    }

    /// The label that is digested before the content.
    pub fn label(self) -> (label: &'static str)
        ensures
            label@ == self.label_text(),
    {
        match self {
            DigestDomain::SafeTensorsSnapshot => "CEREBRO:TIDEX:SAFETENSORS-SNAPSHOT:v1\0",
            DigestDomain::InspectedReceiverArtifacts =>
                "CEREBRO:TIDEX:INSPECTED-RECEIVER-ARTIFACTS:v1\0",
            DigestDomain::CompilationRequest =>
                "CEREBRO:TIDEX:UNIVERSAL-CAPABILITY-COMPILATION-REQUEST:v1\0",
            DigestDomain::PlanningRequest =>
                "CEREBRO:TIDEX:UNIVERSAL-CAPABILITY-PLANNING-REQUEST:v1\0",
            DigestDomain::ShadowMaterializationPlan =>
                "CEREBRO:TIDEX:SHADOW-MATERIALIZATION-PLAN:v1\0",
            DigestDomain::ShadowReceiverCoordinates =>
                "CEREBRO:TIDEX:SHADOW-RECEIVER-COORDINATES:v1\0",
        }
    }
}

/// No two domains share a label.
pub proof fn digest_domains_are_separate(a: DigestDomain, b: DigestDomain)
    ensures
        a.label_text() == b.label_text() ==> a == b,
{
    reveal_strlit("CEREBRO:TIDEX:SAFETENSORS-SNAPSHOT:v1\0");
    reveal_strlit("CEREBRO:TIDEX:INSPECTED-RECEIVER-ARTIFACTS:v1\0");
    reveal_strlit("CEREBRO:TIDEX:UNIVERSAL-CAPABILITY-COMPILATION-REQUEST:v1\0");
    reveal_strlit("CEREBRO:TIDEX:UNIVERSAL-CAPABILITY-PLANNING-REQUEST:v1\0");
    reveal_strlit("CEREBRO:TIDEX:SHADOW-MATERIALIZATION-PLAN:v1\0");
    reveal_strlit("CEREBRO:TIDEX:SHADOW-RECEIVER-COORDINATES:v1\0");
    if a.label_text() == b.label_text() {
        assert(a.label_text().len() == b.label_text().len());
        assert(a.label_text()[21] == b.label_text()[21]);
    }
}

/// The digest that stands for none is sixty-four zeros.
pub proof fn the_zero_digest_is_all_zeros()
    ensures
        zero_digest().len() == 64,
        forall|i: int| 0 <= i < 64 ==> #[trigger] zero_digest()[i] == '0',
{
    reveal_strlit("0000000000000000000000000000000000000000000000000000000000000000");
}

/// Every domain has the label that names it, and every label ends the same way.
pub proof fn labels_name_their_domains(domain: DigestDomain)
    ensures
        domain is SafeTensorsSnapshot ==> domain.label_text()
            == "CEREBRO:TIDEX:SAFETENSORS-SNAPSHOT:v1\0"@,
        domain is InspectedReceiverArtifacts ==> domain.label_text()
            == "CEREBRO:TIDEX:INSPECTED-RECEIVER-ARTIFACTS:v1\0"@,
        domain is CompilationRequest ==> domain.label_text()
            == "CEREBRO:TIDEX:UNIVERSAL-CAPABILITY-COMPILATION-REQUEST:v1\0"@,
        domain is PlanningRequest ==> domain.label_text()
            == "CEREBRO:TIDEX:UNIVERSAL-CAPABILITY-PLANNING-REQUEST:v1\0"@,
        domain is ShadowMaterializationPlan ==> domain.label_text()
            == "CEREBRO:TIDEX:SHADOW-MATERIALIZATION-PLAN:v1\0"@,
        domain is ShadowReceiverCoordinates ==> domain.label_text()
            == "CEREBRO:TIDEX:SHADOW-RECEIVER-COORDINATES:v1\0"@,
        domain.label_text().last() == '\0',
{
    reveal_strlit("CEREBRO:TIDEX:SAFETENSORS-SNAPSHOT:v1\0");
    reveal_strlit("CEREBRO:TIDEX:INSPECTED-RECEIVER-ARTIFACTS:v1\0");
    reveal_strlit("CEREBRO:TIDEX:UNIVERSAL-CAPABILITY-COMPILATION-REQUEST:v1\0");
    reveal_strlit("CEREBRO:TIDEX:UNIVERSAL-CAPABILITY-PLANNING-REQUEST:v1\0");
    reveal_strlit("CEREBRO:TIDEX:SHADOW-MATERIALIZATION-PLAN:v1\0");
    reveal_strlit("CEREBRO:TIDEX:SHADOW-RECEIVER-COORDINATES:v1\0");
}

} // verus!
