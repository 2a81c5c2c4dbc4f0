//! What an acquisition captures, and the structure of the capability that a
//! laboratory case acquires.

use crate::identity::CapabilityId;
use crate::lab_records::{acquisition_name, acquisition_text};
use crate::lab_suite::{CapabilitySpec, SpecModel};
use crate::order::views;
use vstd::prelude::*;

verus! {

/// Where the captured content is to be held.
#[derive(Debug, Clone, Copy, PartialEq, Eq, Structural)]
pub enum RequestedResidency {
    /// In the best place whose content can be verified.
    BestVerified,
}

/// Which content counts as noise and is left out.
#[derive(Debug, Clone, Copy, PartialEq, Eq, Structural)]
pub enum NoisePolicy {
    /// Only what is named.
    ExplicitOnly,
    /// Also what is known to be generated by tools.
    ConservativeGeneratedArtifacts,
}

/// What an acquisition captures.
#[derive(Debug)]
pub struct AcquisitionPlan {
    pub acquisition_id: String,
    /// The declared root, or nothing for the whole project.
    pub declared_path: Option<String>,
    pub residency: RequestedResidency,
    pub noise_policy: NoisePolicy,
    pub max_files: u64,
    pub max_total_bytes: u64,
}

/// The model of an [`AcquisitionPlan`].
pub struct AcquisitionModel {
    pub acquisition_id: Seq<char>,
    pub declared_path: Option<Seq<char>>,
    pub residency: RequestedResidency,
    pub noise_policy: NoisePolicy,
    pub max_files: u64,
    pub max_total_bytes: u64,
}

impl View for AcquisitionPlan {
    type V = AcquisitionModel;

    open spec fn view(&self) -> AcquisitionModel {
        AcquisitionModel {
            acquisition_id: self.acquisition_id@,
            declared_path: match self.declared_path {
                Some(path) => Some(path@),
                None => None,
            },
            residency: self.residency,
            noise_policy: self.noise_policy,
            max_files: self.max_files,
            max_total_bytes: self.max_total_bytes,
        }
    }
}

/// What is captured of the source of a capability: the whole of it, with nothing
/// taken for noise, in at most eight files and one mebibyte.
pub fn capability_acquisition(capability: &CapabilitySpec, seed: u64) -> (plan: AcquisitionPlan)
    ensures
        plan@ == (AcquisitionModel {
            acquisition_id: acquisition_text(capability@, seed),
            declared_path: None,
            residency: RequestedResidency::BestVerified,
            noise_policy: NoisePolicy::ExplicitOnly,
            max_files: 8,
            max_total_bytes: 1_048_576,
        }),
{
    AcquisitionPlan {
        acquisition_id: acquisition_name(capability, seed),
        declared_path: None,
        residency: RequestedResidency::BestVerified,
        noise_policy: NoisePolicy::ExplicitOnly,
        max_files: 8,
        max_total_bytes: 1_048_576,
    }
}

/// The file that the source of a capability is written to.
pub const SOURCE_FILE: &'static str = "capability.contract.json";

/// A place where a tensor of doubles comes in or goes out.
#[derive(Debug)]
pub struct TensorPort {
    pub name: &'static str,
    pub shape: Vec<u64>,
}

/// The model of a [`TensorPort`].
pub struct PortModel {
    pub name: Seq<char>,
    pub shape: Seq<u64>,
}

impl View for TensorPort {
    type V = PortModel;

    open spec fn view(&self) -> PortModel {
        PortModel { name: self.name@, shape: self.shape@ }
    }
}

/// Where a value comes from.
#[derive(Debug)]
pub enum ValueReference {
    Input(&'static str),
    NodeOutput(&'static str),
}

/// The model of a [`ValueReference`].
pub enum ReferenceModel {
    Input(Seq<char>),
    NodeOutput(Seq<char>),
}

impl View for ValueReference {
    type V = ReferenceModel;

    open spec fn view(&self) -> ReferenceModel {
        match self {
            ValueReference::Input(name) => ReferenceModel::Input(name@),
            ValueReference::NodeOutput(node_id) => ReferenceModel::NodeOutput(node_id@),
        }
    }
}

/// One step of a capability.
#[derive(Debug)]
pub struct IrNode {
    pub node_id: &'static str,
    pub primitive: &'static str,
    pub inputs: Vec<ValueReference>,
    pub output: TensorPort,
    /// The files that the step rests on.
    pub provenance: Vec<&'static str>,
}

/// The model of an [`IrNode`].
pub struct NodeModel {
    pub node_id: Seq<char>,
    pub primitive: Seq<char>,
    pub inputs: Seq<ReferenceModel>,
    pub output: PortModel,
    pub provenance: Seq<Seq<char>>,
}

impl View for IrNode {
    type V = NodeModel;

    open spec fn view(&self) -> NodeModel {
        NodeModel {
            node_id: self.node_id@,
            primitive: self.primitive@,
            inputs: views(self.inputs@),
            output: self.output@,
            provenance: views(self.provenance@),
        }
    }
}

/// What a capability gives out, and where it takes it from.
#[derive(Debug)]
pub struct OutputBinding {
    pub port: TensorPort,
    pub value: ValueReference,
}

/// The model of an [`OutputBinding`].
pub struct BindingModel {
    pub port: PortModel,
    pub value: ReferenceModel,
}

impl View for OutputBinding {
    type V = BindingModel;

    open spec fn view(&self) -> BindingModel {
        BindingModel { port: self.port@, value: self.value@ }
    }
}

/// The structure of a capability.
#[derive(Debug)]
pub struct CapabilityIr {
    pub capability_id: CapabilityId,
    pub primitive_set: &'static str,
    pub inputs: Vec<TensorPort>,
    pub nodes: Vec<IrNode>,
    pub outputs: Vec<OutputBinding>,
}

/// The model of a [`CapabilityIr`].
pub struct CapabilityIrModel {
    pub capability_id: Seq<char>,
    pub primitive_set: Seq<char>,
    pub inputs: Seq<PortModel>,
    pub nodes: Seq<NodeModel>,
    pub outputs: Seq<BindingModel>,
}

impl View for CapabilityIr {
    type V = CapabilityIrModel;

    open spec fn view(&self) -> CapabilityIrModel {
        CapabilityIrModel {
            capability_id: self.capability_id@,
            primitive_set: self.primitive_set@,
            inputs: views(self.inputs@),
            nodes: views(self.nodes@),
            outputs: views(self.outputs@),
        }
    }
}

/// A named column of two numbers.
pub open spec fn state_port(name: Seq<char>) -> PortModel {
    PortModel { name, shape: seq![2u64, 1] }
}

/// The structure of a capability of the laboratory: one step that normalises the
/// state, and rests on the file of the source.
pub open spec fn ir_of(capability: SpecModel) -> CapabilityIrModel {
    CapabilityIrModel {
        capability_id: capability.id,
        primitive_set: "tidex_core_v1"@,
        inputs: seq![state_port("state"@)],
        nodes: seq![
            NodeModel {
                node_id: "node.normalize"@,
                primitive: "tensor.normalize"@,
                inputs: seq![ReferenceModel::Input("state"@)],
                output: state_port("normalized"@),
                provenance: seq![SOURCE_FILE@],
            },
        ],
        outputs: seq![
            BindingModel {
                port: state_port("result"@),
                value: ReferenceModel::NodeOutput("node.normalize"@),
            },
        ],
    }
}

fn column(name: &'static str) -> (port: TensorPort)
    ensures
        port@ == state_port(name@),
{
    let shape: Vec<u64> = vec![2, 1];
    assert(shape@ =~= seq![2u64, 1]);
    TensorPort { name, shape }
}

/// The structure of a capability of the laboratory.
pub fn capability_ir(capability: &CapabilitySpec) -> (ir: CapabilityIr)
    ensures
        ir@ == ir_of(capability@),
{
    let ghost wanted = ir_of(capability@);
    let node = IrNode {
        node_id: "node.normalize",
        primitive: "tensor.normalize",
        inputs: vec![ValueReference::Input("state")],
        output: column("normalized"),
        provenance: vec![SOURCE_FILE],
    };
    assert(node@.inputs =~= wanted.nodes[0].inputs);
    assert(node@.provenance =~= wanted.nodes[0].provenance);
    let ir = CapabilityIr {
        capability_id: capability.id.clone(),
        primitive_set: "tidex_core_v1",
        inputs: vec![column("state")],
        nodes: vec![node],
        outputs: vec![
            OutputBinding {
                port: column("result"),
                value: ValueReference::NodeOutput("node.normalize"),
            },
        ],
    };
    assert(ir@.inputs =~= wanted.inputs);
    assert(ir@.nodes =~= wanted.nodes);
    assert(ir@.outputs =~= wanted.outputs);
    ir
}

/// Whether a reference names an input, or one of the given first nodes.
pub open spec fn resolves(ir: CapabilityIrModel, reference: ReferenceModel, nodes: int) -> bool {
    match reference {
        ReferenceModel::Input(name) => exists|i: int|
            0 <= i < ir.inputs.len() && (#[trigger] ir.inputs[i]).name == name,
        ReferenceModel::NodeOutput(node_id) => exists|i: int|
            0 <= i < nodes && (#[trigger] ir.nodes[i]).node_id == node_id,
    }
}

/// The structure of a capability is closed: every step takes its values from an
/// input or an earlier step, every output from an input or a step, and every step
/// rests on the file that the source of the capability is written to.
pub proof fn capability_structures_are_closed(capability: SpecModel)
    ensures
        ({
            let ir = ir_of(capability);
            &&& forall|n: int, k: int|
                0 <= n < ir.nodes.len() && 0 <= k < ir.nodes[n].inputs.len() ==> resolves(
                    ir,
                    #[trigger] ir.nodes[n].inputs[k],
                    n,
                )
            &&& forall|k: int|
                0 <= k < ir.outputs.len() ==> resolves(
                    ir,
                    (#[trigger] ir.outputs[k]).value,
                    ir.nodes.len() as int,
                )
            &&& forall|n: int|
                0 <= n < ir.nodes.len() ==> (#[trigger] ir.nodes[n]).provenance.contains(
                    SOURCE_FILE@,
                )
        }),
{
    let ir = ir_of(capability);
    assert(ir.inputs[0].name == "state"@);
    assert(ir.nodes[0].node_id == "node.normalize"@);
    assert(ir.nodes[0].provenance[0] == SOURCE_FILE@);
}

/// Every port of a capability's structure carries one state: a column of two numbers,
/// taken in under the name of the state, normalised, and given out as the result. The
/// structure is the capability's, whichever its operator.
pub proof fn structures_carry_one_state(capability: SpecModel, other: SpecModel)
    ensures
        ({
            let ir = ir_of(capability);
            &&& ir.capability_id == capability.id
            &&& ir.inputs.len() == 1 && ir.nodes.len() == 1 && ir.outputs.len() == 1
            &&& ir.inputs[0].shape == seq![2u64, 1]
            &&& ir.nodes[0].output.shape == ir.inputs[0].shape
            &&& ir.outputs[0].port.shape == ir.inputs[0].shape
            &&& ir.nodes[0].inputs == seq![ReferenceModel::Input(ir.inputs[0].name)]
            &&& ir.outputs[0].value == ReferenceModel::NodeOutput(ir.nodes[0].node_id)
            &&& ir_of(other) == (CapabilityIrModel { capability_id: other.id, ..ir })
        }),
{
}

} // verus!
