//! Inspection of a receiver checkpoint: from a request and what the host has
//! gathered so far to the next thing to gather, a refusal, or the artifacts.
//!
//! The host performs the step it is given, records the outcome in the
//! [`InspectionProgress`] and asks again.

use crate::checkpoint_adapter::{
    bounded_product, counts_are_products_of_the_dimensions, digest_file, digest_outcome,
    elements_of, encoding_outcome, materialization_encoding, names_encoding, parameter_count,
    scalar_types_are_those_that_dtypes_name, shape_copy, table_outcome, HeaderModel,
    ReceiverScalarEncoding, TensorHeader, MAX_AUXILIARY_BYTES, MAX_CHECKPOINT_BYTES,
    MAX_CHECKPOINT_FILES,
};
use crate::error::{BrainError, BrainResult, ErrorView};
use crate::identity::{zero_digest, ArchitectureId, ModelId, Sha256Digest, TensorId};
use crate::order::{
    awaited, awaited_check, distinct_keys, find_named, has_name, insert_named, ordered_set, outcome, outcomes,
    placed, sets_ascend_and_keep_every_key, sort, sorted, sorting_keeps_distinctness,
    sorting_permutes_and_ascends, strictly_ascending, strictly_sorted, take_one_more, to_set, views,
    views_push, KeyModel, Named, NamedModel,
};
use crate::paths::{FilePath, PathModel};
use crate::receiver_profile::{
    modalities_copy, strategies_copy, ArchitectureModel, CapabilityModality,
    MaterializationStrategy, ModalityModel, ProfileModel, ReceiverArchitecture, ReceiverProfile,
    ReceiverRegion, RegionModel,
};
use crate::text::text_eq;
use vstd::prelude::*;

verus! {

broadcast use views_push;

/// A request to inspect a receiver checkpoint. The modalities, the strategies and
/// the tensors to materialise are sets: an inspection reads each in ascending
/// order, and a repeated member once.
#[derive(Debug)]
pub struct SafeTensorsReceiverRequest {
    pub schema: String,
    pub model_id: ModelId,
    pub architecture_id: ArchitectureId,
    pub architecture: ReceiverArchitecture,
    pub modalities: Vec<CapabilityModality>,
    pub supports_persistent_state: bool,
    pub checkpoint_files: Vec<FilePath>,
    pub configuration_file: FilePath,
    pub tokenizer_file: FilePath,
    pub supported_strategies: Vec<MaterializationStrategy>,
    /// The tensors to materialise; empty for all of them.
    pub materialization_tensors: Vec<TensorId>,
}

/// The model of a [`SafeTensorsReceiverRequest`].
pub struct RequestModel {
    pub schema: Seq<char>,
    pub model_id: Seq<char>,
    pub architecture_id: Seq<char>,
    pub architecture: ArchitectureModel,
    pub modalities: Seq<ModalityModel>,
    pub supports_persistent_state: bool,
    pub checkpoint_files: Seq<PathModel>,
    pub configuration_file: PathModel,
    pub tokenizer_file: PathModel,
    pub supported_strategies: Seq<MaterializationStrategy>,
    pub materialization_tensors: Seq<Seq<char>>,
}

impl View for SafeTensorsReceiverRequest {
    type V = RequestModel;

    open spec fn view(&self) -> RequestModel {
        RequestModel {
            schema: self.schema@,
            model_id: self.model_id@,
            architecture_id: self.architecture_id@,
            architecture: self.architecture@,
            modalities: views(self.modalities@),
            supports_persistent_state: self.supports_persistent_state,
            checkpoint_files: views(self.checkpoint_files@),
            configuration_file: self.configuration_file@,
            tokenizer_file: self.tokenizer_file@,
            supported_strategies: self.supported_strategies@,
            materialization_tensors: views(self.materialization_tensors@),
        }
    }
}

/// What a checkpoint file was found to hold.
#[derive(Debug)]
pub struct FileContent {
    pub headers: BrainResult<Vec<Named<TensorHeader>>>,
    pub digest: BrainResult<Sha256Digest>,
}

/// What is known of one checkpoint file: its length once it is admitted, and
/// its content once it was read.
#[derive(Debug)]
pub struct FileProgress {
    pub length: BrainResult<u64>,
    pub content: Option<FileContent>,
}

/// The model of a [`FileContent`].
pub struct ContentModel {
    pub headers: Result<Seq<NamedModel<HeaderModel>>, ErrorView>,
    pub digest: Result<Seq<char>, ErrorView>,
}

/// The model of a [`FileProgress`].
pub struct FileModel {
    pub length: Result<u64, ErrorView>,
    pub content: Option<ContentModel>,
}

impl View for FileProgress {
    type V = FileModel;

    open spec fn view(&self) -> FileModel {
        FileModel {
            length: outcome(self.length),
            content: match self.content {
                Some(content) => Some(
                    ContentModel {
                        headers: table_outcome(content.headers),
                        digest: outcome(content.digest),
                    },
                ),
                None => None,
            },
        }
    }
}

/// The tensors and digests of the checkpoint files read so far.
#[derive(Debug)]
pub struct CheckpointUnion {
    /// Every tensor, in ascending order of the names.
    pub tensors: Vec<Named<TensorHeader>>,
    /// The digest of every file, in the order of the files.
    pub digests: Vec<Sha256Digest>,
}

/// Where the reading of the checkpoint files stands.
pub enum UnionModel {
    Failed(ErrorView),
    /// The length of this file is needed.
    Measure(int),
    /// The content of this file is needed.
    Read(int),
    Merged { total: int, tensors: Seq<NamedModel<HeaderModel>>, digests: Seq<Seq<char>> },
}

/// A table with more entries, unless a name is taken.
pub open spec fn table_merged(
    table: Seq<NamedModel<HeaderModel>>,
    entries: Seq<NamedModel<HeaderModel>>,
) -> Option<Seq<NamedModel<HeaderModel>>>
    decreases entries.len(),
{
    if entries.len() == 0 {
        Some(table)
    } else {
        match table_merged(table, entries.drop_last()) {
            None => None,
            Some(front) => if has_name(front, entries.last().name) {
                None
            } else {
                Some(placed(front, entries.last()))
            },
        }
    }
}

/// The union of the first `n` files.
pub open spec fn files_merged(files: Seq<FileModel>, n: int) -> UnionModel
    decreases n,
{
    if n <= 0 {
        UnionModel::Merged { total: 0, tensors: Seq::empty(), digests: Seq::empty() }
    } else {
        match files_merged(files, n - 1) {
            UnionModel::Merged { total, tensors, digests } => if n - 1 >= files.len() {
                UnionModel::Measure(n - 1)
            } else {
                file_merged(files[n - 1], n - 1, total, tensors, digests)
            },
            other => other,
        }
    }
}

/// A union with one more file.
pub open spec fn file_merged(
    file: FileModel,
    position: int,
    total: int,
    tensors: Seq<NamedModel<HeaderModel>>,
    digests: Seq<Seq<char>>,
) -> UnionModel {
    match file.length {
        Err(error) => UnionModel::Failed(error),
        Ok(length) => if total + length > u64::MAX {
            UnionModel::Failed(ErrorView::Invalid("checkpoint_total_overflow"@))
        } else if total + length > MAX_CHECKPOINT_BYTES {
            UnionModel::Failed(ErrorView::Invalid("checkpoint_total_limit"@))
        } else {
            match file.content {
                None => UnionModel::Read(position),
                Some(content) => match content.headers {
                    Err(error) => UnionModel::Failed(error),
                    Ok(entries) => match table_merged(tensors, entries) {
                        None => UnionModel::Failed(
                            ErrorView::Invalid("checkpoint_duplicate_tensor"@),
                        ),
                        Some(merged) => match content.digest {
                            Err(error) => UnionModel::Failed(error),
                            Ok(digest) => UnionModel::Merged {
                                total: total + length,
                                tensors: merged,
                                digests: digests.push(digest),
                            },
                        },
                    },
                },
            }
        },
    }
}

proof fn lemma_stop_persists(files: Seq<FileModel>, n: int, all: int)
    requires
        0 <= n <= all,
        !(files_merged(files, n) is Merged),
    ensures
        files_merged(files, all) == files_merged(files, n),
    decreases all - n,
{
    if n < all {
        lemma_stop_persists(files, n + 1, all);
    }
}

proof fn lemma_taken_name_persists(
    table: Seq<NamedModel<HeaderModel>>,
    entries: Seq<NamedModel<HeaderModel>>,
    n: int,
)
    requires
        0 <= n <= entries.len(),
        table_merged(table, entries.take(n)) is None,
    ensures
        table_merged(table, entries) is None,
    decreases entries.len() - n,
{
    if n == entries.len() {
        assert(entries.take(n) == entries);
    } else {
        assert(entries.take(n + 1).drop_last() == entries.take(n));
        lemma_taken_name_persists(table, entries, n + 1);
    }
}

/// Where the reading of the checkpoint files stands, in memory.
#[derive(Debug)]
pub enum UnionStep {
    Failed(BrainError),
    Measure(usize),
    Read(usize),
    Merged(CheckpointUnion),
}

/// Whether a step is what the model says.
pub open spec fn union_agrees(step: UnionStep, model: UnionModel) -> bool {
    match step {
        UnionStep::Failed(error) => model == UnionModel::Failed(error@),
        UnionStep::Measure(position) => model == UnionModel::Measure(position as int),
        UnionStep::Read(position) => model == UnionModel::Read(position as int),
        UnionStep::Merged(union) => {
            &&& model is Merged
            &&& model->tensors == views(union.tensors@)
            &&& model->digests == views(union.digests@)
            &&& strictly_ascending(views(union.tensors@))
        },
    }
}

/// Puts copies of the entries of a file into a table.
fn merge_table(table: &mut Vec<Named<TensorHeader>>, entries: &Vec<Named<TensorHeader>>) -> (merged:
    bool)
    requires
        strictly_ascending(views(old(table)@)),
    ensures
        strictly_ascending(views(final(table)@)),
        merged ==> table_merged(views(old(table)@), views(entries@)) == Some(views(final(table)@)),
        !merged ==> table_merged(views(old(table)@), views(entries@)) is None,
{
    let ghost start = views(table@);
    let ghost models = views(entries@);
    assert(models.take(0) == Seq::<NamedModel<HeaderModel>>::empty());
    for i in 0..entries.len()
        invariant
            models == views(entries@),
            start == views(old(table)@),
            strictly_ascending(views(table@)),
            table_merged(start, models.take(i as int)) == Some(views(table@)),
    {
        assert(models.take(i + 1).drop_last() == models.take(i as int));
        assert(models.take(i + 1).last() == entries@[i as int]@);
        let entry = Named {
            name: entries[i].name.clone(),
            value: entries[i].value.duplicate(),
        };
        assert(entry@ == entries@[i as int]@);
        if !insert_named(table, entry) {
            proof {
                lemma_taken_name_persists(start, models, i + 1);
            }
            return false;
        }
    }
    assert(models.take(models.len() as int) == models);
    true
}

/// Unites the first `count` checkpoint files, or says what is missing.
pub fn merge_checkpoint_files(files: &Vec<FileProgress>, count: usize) -> (step: UnionStep)
    ensures
        union_agrees(step, files_merged(views(files@), count as int)),
{
    let ghost models = views(files@);
    let mut total: u64 = 0;
    let mut tensors: Vec<Named<TensorHeader>> = Vec::new();
    let mut digests: Vec<Sha256Digest> = Vec::new();
    assert(views(tensors@) =~= Seq::empty());
    assert(views(digests@) =~= Seq::empty());
    for i in 0..count
        invariant
            models == views(files@),
            strictly_ascending(views(tensors@)),
            files_merged(models, i as int) == (UnionModel::Merged {
                total: total as int,
                tensors: views(tensors@),
                digests: views(digests@),
            }),
    {
        if i >= files.len() {
            proof {
                lemma_stop_persists(models, i + 1, count as int);
            }
            return UnionStep::Measure(i);
        }
        assert(models[i as int] == files@[i as int]@);
        let length: u64 = match &files[i].length {
            Ok(length) => *length,
            Err(error) => {
                proof {
                    lemma_stop_persists(models, i + 1, count as int);
                }
                return UnionStep::Failed(error.duplicate());
            },
        };
        let sum: u64 = match total.checked_add(length) {
            Some(sum) => sum,
            None => {
                proof {
                    lemma_stop_persists(models, i + 1, count as int);
                }
                return UnionStep::Failed(BrainError::invalid("checkpoint_total_overflow"));
            },
        };
        if sum > MAX_CHECKPOINT_BYTES {
            proof {
                lemma_stop_persists(models, i + 1, count as int);
            }
            return UnionStep::Failed(BrainError::invalid("checkpoint_total_limit"));
        }
        let content = match &files[i].content {
            Some(content) => content,
            None => {
                proof {
                    lemma_stop_persists(models, i + 1, count as int);
                }
                return UnionStep::Read(i);
            },
        };
        let entries = match &content.headers {
            Ok(entries) => entries,
            Err(error) => {
                proof {
                    lemma_stop_persists(models, i + 1, count as int);
                }
                return UnionStep::Failed(error.duplicate());
            },
        };
        if !merge_table(&mut tensors, entries) {
            proof {
                lemma_stop_persists(models, i + 1, count as int);
            }
            return UnionStep::Failed(BrainError::invalid("checkpoint_duplicate_tensor"));
        }
        match &content.digest {
            Ok(digest) => {
                digests.push(digest.clone());
            },
            Err(error) => {
                proof {
                    lemma_stop_persists(models, i + 1, count as int);
                }
                return UnionStep::Failed(error.duplicate());
            },
        }
        total = sum;
    }
    UnionStep::Merged(CheckpointUnion { tensors, digests })
}


/// The architecture of a receiver, from the declared and the recognised one.
pub open spec fn architecture_outcome(
    declared: ArchitectureModel,
    recognised: ArchitectureModel,
) -> Result<ArchitectureModel, ErrorView> {
    if declared is Unknown {
        Ok(recognised)
    } else if recognised is Unknown || declared == recognised {
        Ok(declared)
    } else {
        Err(ErrorView::Integrity("declared_receiver_architecture_conflicts_with_checkpoint"@))
    }
}

/// Resolves the architecture of a receiver.
pub fn resolve_architecture(
    declared: &ReceiverArchitecture,
    recognised: &ReceiverArchitecture,
) -> (resolved: BrainResult<ReceiverArchitecture>)
    ensures
        outcome(resolved) == architecture_outcome(declared@, recognised@),
{
    if !declared.is_unknown() && !recognised.is_unknown() && !declared.same(recognised) {
        return Err(
            BrainError::integrity("declared_receiver_architecture_conflicts_with_checkpoint"),
        );
    }
    if declared.is_unknown() {
        Ok(recognised.clone())
    } else {
        Ok(declared.clone())
    }
}

/// The entry of the given name.
pub open spec fn entry_named(table: Seq<NamedModel<HeaderModel>>, name: Seq<char>) -> NamedModel<
    HeaderModel,
> {
    table[choose|i: int| 0 <= i < table.len() && (#[trigger] table[i]).name == name]
}

/// The wanted entries of a table, in the order in which they are wanted; each
/// can be taken once.
pub open spec fn entries_taken(
    table: Seq<NamedModel<HeaderModel>>,
    wanted: Seq<Seq<char>>,
) -> Result<Seq<NamedModel<HeaderModel>>, ErrorView>
    decreases wanted.len(),
{
    if wanted.len() == 0 {
        Ok(Seq::empty())
    } else {
        match entries_taken(table, wanted.drop_last()) {
            Err(error) => Err(error),
            Ok(front) => if has_name(table, wanted.last()) && !wanted.drop_last().contains(
                wanted.last(),
            ) {
                Ok(front.push(entry_named(table, wanted.last())))
            } else {
                Err(ErrorView::Invalid("materialization_tensor_not_in_checkpoint"@))
            },
        }
    }
}

/// The tensors to materialise: the wanted ones, or all where none is named.
pub open spec fn selection_outcome(
    table: Seq<NamedModel<HeaderModel>>,
    wanted: Seq<Seq<char>>,
) -> Result<Seq<NamedModel<HeaderModel>>, ErrorView> {
    if wanted.len() == 0 {
        Ok(table)
    } else {
        entries_taken(table, wanted)
    }
}

proof fn lemma_missing_tensor_persists(
    table: Seq<NamedModel<HeaderModel>>,
    wanted: Seq<Seq<char>>,
    n: int,
)
    requires
        0 <= n <= wanted.len(),
        entries_taken(table, wanted.take(n)) is Err,
    ensures
        entries_taken(table, wanted) == entries_taken(table, wanted.take(n)),
    decreases wanted.len() - n,
{
    if n == wanted.len() {
        assert(wanted.take(n) == wanted);
    } else {
        assert(wanted.take(n + 1).drop_last() == wanted.take(n));
        lemma_missing_tensor_persists(table, wanted, n + 1);
    }
}

/// Whether an identity stands among the first `count`.
fn wanted_before(wanted: &Vec<TensorId>, count: usize) -> (repeated: bool)
    requires
        count < wanted.len(),
    ensures
        repeated == views(wanted@).take(count as int).contains(views(wanted@)[count as int]),
{
    let ghost models = views(wanted@);
    for i in 0..count
        invariant
            count < wanted.len(),
            models == views(wanted@),
            forall|j: int| 0 <= j < i ==> models[j] != models[count as int],
    {
        assert(models[i as int] == wanted@[i as int]@ && models[count as int]
            == wanted@[count as int]@);
        if wanted[i].same(&wanted[count]) {
            assert(models.take(count as int)[i as int] == models[count as int]);
            return true;
        }
    }
    false
}

/// A copy of a named header.
fn entry_copy(entry: &Named<TensorHeader>) -> (copy: Named<TensorHeader>)
    ensures
        copy@ == entry@,
{
    Named { name: entry.name.clone(), value: entry.value.duplicate() }
}

/// Selects the tensors to materialise.
pub fn select_materialization_tensors(
    table: &Vec<Named<TensorHeader>>,
    wanted: &Vec<TensorId>,
) -> (selected: BrainResult<Vec<Named<TensorHeader>>>)
    requires
        strictly_ascending(views(table@)),
    ensures
        table_outcome(selected) == selection_outcome(views(table@), views(wanted@)),
{
    let ghost models = views(table@);
    let ghost names = views(wanted@);
    let mut selected: Vec<Named<TensorHeader>> = Vec::new();
    if wanted.len() == 0 {
        assert(models.take(0) =~= views(selected@));
        for i in 0..table.len()
            invariant
                models == views(table@),
                views(selected@) == models.take(i as int),
        {
            selected.push(entry_copy(&table[i]));
            proof {
                take_one_more(models, i as int);
            }
        }
        assert(models.take(models.len() as int) == models);
        return Ok(selected);
    }
    assert(names.take(0) == Seq::<Seq<char>>::empty());
    assert(views(selected@) =~= Seq::empty());
    for i in 0..wanted.len()
        invariant
            models == views(table@),
            names == views(wanted@),
            strictly_ascending(models),
            names.len() > 0,
            entries_taken(models, names.take(i as int)) == Ok::<_, ErrorView>(views(selected@)),
    {
        assert(names.take(i + 1).drop_last() == names.take(i as int));
        assert(names.take(i + 1).last() == wanted@[i as int]@);
        let repeated = wanted_before(wanted, i);
        match find_named(table, wanted[i].as_str()) {
            Some(entry) if !repeated => {
                proof {
                    let name = wanted@[i as int]@;
                    let a = choose|a: int| 0 <= a < table@.len() && table@[a] == *entry;
                    assert(models[a] == entry@);
                    let b = choose|b: int| 0 <= b < models.len() && (#[trigger] models[b]).name == name;
                    if a < b {
                        assert(crate::order::key_less(models[a].key(), models[b].key()));
                        crate::order::keys_are_totally_ordered(models[a].key(), models[b].key());
                    }
                    if b < a {
                        assert(crate::order::key_less(models[b].key(), models[a].key()));
                        crate::order::keys_are_totally_ordered(models[a].key(), models[b].key());
                    }
                    assert(entry_named(models, name) == entry@);
                }
                selected.push(entry_copy(entry));
            },
            _ => {
                proof {
                    lemma_missing_tensor_persists(models, names, i + 1);
                }
                return Err(BrainError::invalid("materialization_tensor_not_in_checkpoint"));
            },
        }
    }
    assert(names.take(names.len() as int) == names);
    Ok(selected)
}

/// The shape of one block of the parameter layout.
#[derive(Debug)]
pub struct BlockShapeSpec {
    pub name: String,
    pub shape: Vec<usize>,
    pub count: usize,
}

/// The model of a [`BlockShapeSpec`].
pub struct BlockModel {
    pub name: Seq<char>,
    pub shape: Seq<usize>,
    pub count: usize,
}

impl View for BlockShapeSpec {
    type V = BlockModel;

    open spec fn view(&self) -> BlockModel {
        BlockModel { name: self.name@, shape: self.shape@, count: self.count }
    }
}

/// How a tensor is spread over devices.
#[derive(Debug, Clone, Copy, PartialEq, Eq, Structural)]
pub enum ReceiverTensorPartitioning {
    Replicated,
}

/// How a receiver tensor is physically stored.
#[derive(Debug)]
pub struct ReceiverTensorPhysicalSpec {
    pub tensor_id: TensorId,
    pub encoding: ReceiverScalarEncoding,
    pub partitioning: ReceiverTensorPartitioning,
}

/// The model of a [`ReceiverTensorPhysicalSpec`].
pub struct PhysicalModel {
    pub tensor_id: Seq<char>,
    pub encoding: ReceiverScalarEncoding,
    pub partitioning: ReceiverTensorPartitioning,
}

impl View for ReceiverTensorPhysicalSpec {
    type V = PhysicalModel;

    open spec fn view(&self) -> PhysicalModel {
        PhysicalModel {
            tensor_id: self.tensor_id@,
            encoding: self.encoding,
            partitioning: self.partitioning,
        }
    }
}

/// What a selection of tensors means for the receiver, tensor by tensor.
#[derive(Debug)]
pub struct MaterializationDescription {
    pub shapes: Vec<BlockShapeSpec>,
    pub regions: Vec<ReceiverRegion>,
    pub physical: Vec<ReceiverTensorPhysicalSpec>,
}

/// The model of a [`MaterializationDescription`].
pub struct DescriptionModel {
    pub shapes: Seq<BlockModel>,
    pub regions: Seq<RegionModel>,
    pub physical: Seq<PhysicalModel>,
}

impl View for MaterializationDescription {
    type V = DescriptionModel;

    open spec fn view(&self) -> DescriptionModel {
        DescriptionModel {
            shapes: views(self.shapes@),
            regions: views(self.regions@),
            physical: views(self.physical@),
        }
    }
}

/// A description with one more tensor.
pub open spec fn tensor_described(
    before: DescriptionModel,
    tensor: NamedModel<HeaderModel>,
    identity: Result<Seq<char>, ErrorView>,
    strategies: Seq<MaterializationStrategy>,
) -> Result<DescriptionModel, ErrorView> {
    match (encoding_outcome(tensor.value.dtype), identity) {
        (Err(error), _) => Err(error),
        (_, Err(error)) => Err(error),
        (Ok(encoding), Ok(id)) => match bounded_product(tensor.value.shape, usize::MAX as int) {
            None => Err(ErrorView::Invalid("checkpoint_parameter_overflow"@)),
            Some(count) => Ok(
                DescriptionModel {
                    shapes: before.shapes.push(
                        BlockModel {
                            name: tensor.name,
                            shape: tensor.value.shape,
                            count: count as usize,
                        },
                    ),
                    regions: before.regions.push(
                        RegionModel {
                            tensor_id: id,
                            parameter_count: count as u64,
                            supported_strategies: strategies,
                        },
                    ),
                    physical: before.physical.push(
                        PhysicalModel {
                            tensor_id: id,
                            encoding,
                            partitioning: ReceiverTensorPartitioning::Replicated,
                        },
                    ),
                },
            ),
        },
    }
}

/// The description of the first `n` tensors, or the first error.
pub open spec fn tensors_described(
    tensors: Seq<NamedModel<HeaderModel>>,
    identities: Seq<Result<Seq<char>, ErrorView>>,
    strategies: Seq<MaterializationStrategy>,
    n: int,
) -> Result<DescriptionModel, ErrorView>
    decreases n,
{
    if n <= 0 {
        Ok(DescriptionModel { shapes: Seq::empty(), regions: Seq::empty(), physical: Seq::empty() })
    } else {
        match tensors_described(tensors, identities, strategies, n - 1) {
            Err(error) => Err(error),
            Ok(before) => tensor_described(
                before,
                tensors[n - 1],
                identities[n - 1],
                strategies,
            ),
        }
    }
}

proof fn lemma_description_error_persists(
    tensors: Seq<NamedModel<HeaderModel>>,
    identities: Seq<Result<Seq<char>, ErrorView>>,
    strategies: Seq<MaterializationStrategy>,
    n: int,
    all: int,
)
    requires
        0 <= n <= all,
        tensors_described(tensors, identities, strategies, n) is Err,
    ensures
        tensors_described(tensors, identities, strategies, all) == tensors_described(
            tensors,
            identities,
            strategies,
            n,
        ),
    decreases all - n,
{
    if n < all {
        lemma_description_error_persists(tensors, identities, strategies, n + 1, all);
    }
}

/// Describes the selected tensors, given the outcome of reading each name as an
/// identity.
pub fn describe_materialization(
    tensors: &Vec<Named<TensorHeader>>,
    identities: &Vec<BrainResult<TensorId>>,
    strategies: &Vec<MaterializationStrategy>,
) -> (description: BrainResult<MaterializationDescription>)
    requires
        tensors@.len() == identities@.len(),
    ensures
        outcome(description) == tensors_described(
            views(tensors@),
            outcomes(identities@),
            strategies@,
            tensors@.len() as int,
        ),
{
    let ghost models = views(tensors@);
    let ghost ids = outcomes(identities@);
    let mut shapes: Vec<BlockShapeSpec> = Vec::new();
    let mut regions: Vec<ReceiverRegion> = Vec::new();
    let mut physical: Vec<ReceiverTensorPhysicalSpec> = Vec::new();
    assert(views(shapes@) =~= Seq::empty());
    assert(views(regions@) =~= Seq::empty());
    assert(views(physical@) =~= Seq::empty());
    for i in 0..tensors.len()
        invariant
            tensors@.len() == identities@.len(),
            models == views(tensors@),
            ids == outcomes(identities@),
            tensors_described(models, ids, strategies@, i as int) == Ok::<_, ErrorView>(
                DescriptionModel {
                    shapes: views(shapes@),
                    regions: views(regions@),
                    physical: views(physical@),
                },
            ),
    {
        assert(models[i as int] == tensors@[i as int]@);
        assert(ids[i as int] == outcome(identities@[i as int]));
        let header = &tensors[i].value;
        let encoding = match materialization_encoding(header.dtype.as_str()) {
            Ok(encoding) => encoding,
            Err(error) => {
                proof {
                    lemma_description_error_persists(
                        models,
                        ids,
                        strategies@,
                        i + 1,
                        models.len() as int,
                    );
                }
                return Err(error);
            },
        };
        let tensor_id = match &identities[i] {
            Ok(id) => id.clone(),
            Err(error) => {
                proof {
                    lemma_description_error_persists(
                        models,
                        ids,
                        strategies@,
                        i + 1,
                        models.len() as int,
                    );
                }
                return Err(error.duplicate());
            },
        };
        let count: usize = match parameter_count(&header.shape) {
            Some(count) => count,
            None => {
                proof {
                    lemma_description_error_persists(
                        models,
                        ids,
                        strategies@,
                        i + 1,
                        models.len() as int,
                    );
                }
                return Err(BrainError::invalid("checkpoint_parameter_overflow"));
            },
        };
        shapes.push(
            BlockShapeSpec {
                name: tensors[i].name.clone(),
                shape: shape_copy(&header.shape),
                count,
            },
        );
        regions.push(
            ReceiverRegion {
                tensor_id: tensor_id.clone(),
                parameter_count: count as u64,
                supported_strategies: strategies_copy(strategies),
            },
        );
        physical.push(
            ReceiverTensorPhysicalSpec {
                tensor_id,
                encoding,
                partitioning: ReceiverTensorPartitioning::Replicated,
            },
        );
    }
    Ok(MaterializationDescription { shapes, regions, physical })
}

/// What the structure of a checkpoint says about the family of its model.
#[derive(Debug)]
pub struct ArchitectureFamilyFingerprint {
    pub receiver_architecture: ReceiverArchitecture,
    pub model_family: String,
}

/// The model of an [`ArchitectureFamilyFingerprint`].
pub struct FingerprintModel {
    pub receiver_architecture: ArchitectureModel,
    pub model_family: Seq<char>,
}

impl View for ArchitectureFamilyFingerprint {
    type V = FingerprintModel;

    open spec fn view(&self) -> FingerprintModel {
        FingerprintModel {
            receiver_architecture: self.receiver_architecture@,
            model_family: self.model_family@,
        }
    }
}

/// The blocks that a parameter vector is made of.
#[derive(Debug)]
pub struct ParameterLayoutArtifact {
    pub total_parameter_count: u64,
    pub blocks: Vec<BlockShapeSpec>,
}

/// The model of a [`ParameterLayoutArtifact`].
pub struct GeometryModel {
    pub total_parameter_count: u64,
    pub blocks: Seq<BlockModel>,
}

impl View for ParameterLayoutArtifact {
    type V = GeometryModel;

    open spec fn view(&self) -> GeometryModel {
        GeometryModel {
            total_parameter_count: self.total_parameter_count,
            blocks: views(self.blocks@),
        }
    }
}

/// How the parameter vector lies in the tensors of the receiver.
#[derive(Debug)]
pub struct ReceiverMaterializationLayout {
    pub geometry: ParameterLayoutArtifact,
    pub manifest_sha256: Sha256Digest,
}

/// The model of a [`ReceiverMaterializationLayout`].
pub struct LayoutModel {
    pub geometry: GeometryModel,
    pub manifest_sha256: Seq<char>,
}

impl View for ReceiverMaterializationLayout {
    type V = LayoutModel;

    open spec fn view(&self) -> LayoutModel {
        LayoutModel { geometry: self.geometry@, manifest_sha256: self.manifest_sha256@ }
    }
}

/// The exact state of a receiver that artifacts are bound to.
#[derive(Debug)]
pub struct ReceiverSnapshotBinding {
    pub model_snapshot_sha256: Sha256Digest,
    pub manifest_sha256: Sha256Digest,
}

/// The model of a [`ReceiverSnapshotBinding`].
pub struct SnapshotModel {
    pub model_snapshot_sha256: Seq<char>,
    pub manifest_sha256: Seq<char>,
}

impl View for ReceiverSnapshotBinding {
    type V = SnapshotModel;

    open spec fn view(&self) -> SnapshotModel {
        SnapshotModel {
            model_snapshot_sha256: self.model_snapshot_sha256@,
            manifest_sha256: self.manifest_sha256@,
        }
    }
}

/// A checkpoint file and the digest of its bytes.
#[derive(Debug)]
pub struct FileDigest {
    pub file: FilePath,
    pub sha256: Sha256Digest,
}

/// The model of a [`FileDigest`].
pub struct FileDigestModel {
    pub file: PathModel,
    pub sha256: Seq<char>,
}

impl View for FileDigest {
    type V = FileDigestModel;

    open spec fn view(&self) -> FileDigestModel {
        FileDigestModel { file: self.file@, sha256: self.sha256@ }
    }
}

/// Everything that the inspection of a receiver checkpoint establishes.
#[derive(Debug)]
pub struct InspectedReceiverArtifacts {
    pub schema: String,
    pub profile: ReceiverProfile,
    pub layout: ReceiverMaterializationLayout,
    pub snapshot: ReceiverSnapshotBinding,
    pub architecture_fingerprint: ArchitectureFamilyFingerprint,
    /// Every checkpoint file, in ascending order.
    pub checkpoint_file_sha256: Vec<FileDigest>,
    pub manifest_sha256: Sha256Digest,
}

/// The model of [`InspectedReceiverArtifacts`].
pub struct ArtifactsModel {
    pub schema: Seq<char>,
    pub profile: ProfileModel,
    pub layout: LayoutModel,
    pub snapshot: SnapshotModel,
    pub architecture_fingerprint: FingerprintModel,
    pub checkpoint_file_sha256: Seq<FileDigestModel>,
    pub manifest_sha256: Seq<char>,
}

impl View for InspectedReceiverArtifacts {
    type V = ArtifactsModel;

    open spec fn view(&self) -> ArtifactsModel {
        ArtifactsModel {
            schema: self.schema@,
            profile: self.profile@,
            layout: self.layout@,
            snapshot: self.snapshot@,
            architecture_fingerprint: self.architecture_fingerprint@,
            checkpoint_file_sha256: views(self.checkpoint_file_sha256@),
            manifest_sha256: self.manifest_sha256@,
        }
    }
}

/// A configuration or tokenizer file: its length once it is admitted, and the
/// digest of its bytes.
#[derive(Debug)]
pub struct AuxiliaryFile {
    pub length: BrainResult<u64>,
    pub digest: BrainResult<Sha256Digest>,
}

/// The model of an [`AuxiliaryFile`].
pub struct AuxiliaryModel {
    pub length: Result<u64, ErrorView>,
    pub digest: Result<Seq<char>, ErrorView>,
}

impl View for AuxiliaryFile {
    type V = AuxiliaryModel;

    open spec fn view(&self) -> AuxiliaryModel {
        AuxiliaryModel { length: outcome(self.length), digest: outcome(self.digest) }
    }
}

impl AuxiliaryModel {
    /// The digest of the file, unless it is too large.
    pub open spec fn admitted(self) -> Result<Seq<char>, ErrorView> {
        digest_outcome(self.length, MAX_AUXILIARY_BYTES, self.digest)
    }
}

/// A copy of an outcome that holds a number.
fn length_copy(length: &BrainResult<u64>) -> (copy: BrainResult<u64>)
    ensures
        outcome(copy) == outcome(*length),
{
    match length {
        Ok(value) => Ok(*value),
        Err(error) => Err(error.duplicate()),
    }
}

/// A copy of an outcome that holds a digest.
fn digest_copy(digest: &BrainResult<Sha256Digest>) -> (copy: BrainResult<Sha256Digest>)
    ensures
        outcome(copy) == outcome(*digest),
{
    match digest {
        Ok(value) => Ok(value.clone()),
        Err(error) => Err(error.duplicate()),
    }
}

impl AuxiliaryFile {
    /// The digest of the file, unless it is too large.
    pub fn admitted(&self) -> (digest: BrainResult<Sha256Digest>)
        ensures
            outcome(digest) == self@.admitted(),
    {
        digest_file(length_copy(&self.length), MAX_AUXILIARY_BYTES, digest_copy(&self.digest))
    }
}

/// What the host has gathered for an inspection so far, in the order in which
/// it is asked for.
#[derive(Debug)]
pub struct InspectionProgress {
    pub files: Vec<FileProgress>,
    pub configuration: Option<AuxiliaryFile>,
    pub tokenizer: Option<AuxiliaryFile>,
    pub fingerprint: Option<BrainResult<ArchitectureFamilyFingerprint>>,
    pub identities: Option<Vec<BrainResult<TensorId>>>,
    /// Whether the blocks can be laid out as one parameter vector.
    pub geometry: Option<BrainResult<()>>,
    /// The digest of the layout.
    pub layout: Option<BrainResult<Sha256Digest>>,
    /// The digest of all file digests.
    pub model_snapshot: Option<BrainResult<Sha256Digest>>,
    /// The digest of the snapshot binding.
    pub snapshot: Option<BrainResult<Sha256Digest>>,
    pub manifest: Option<BrainResult<Sha256Digest>>,
}

/// The model of an [`InspectionProgress`].
pub struct ProgressModel {
    pub files: Seq<FileModel>,
    pub configuration: Option<AuxiliaryModel>,
    pub tokenizer: Option<AuxiliaryModel>,
    pub fingerprint: Option<Result<FingerprintModel, ErrorView>>,
    pub identities: Option<Seq<Result<Seq<char>, ErrorView>>>,
    pub geometry: Option<Result<(), ErrorView>>,
    pub layout: Option<Result<Seq<char>, ErrorView>>,
    pub model_snapshot: Option<Result<Seq<char>, ErrorView>>,
    pub snapshot: Option<Result<Seq<char>, ErrorView>>,
    pub manifest: Option<Result<Seq<char>, ErrorView>>,
}

impl View for InspectionProgress {
    type V = ProgressModel;

    open spec fn view(&self) -> ProgressModel {
        ProgressModel {
            files: views(self.files@),
            configuration: match self.configuration {
                Some(file) => Some(file@),
                None => None,
            },
            tokenizer: match self.tokenizer {
                Some(file) => Some(file@),
                None => None,
            },
            fingerprint: awaited(self.fingerprint),
            identities: match self.identities {
                Some(identities) => Some(outcomes(identities@)),
                None => None,
            },
            geometry: awaited_check(self.geometry),
            layout: awaited(self.layout),
            model_snapshot: awaited(self.model_snapshot),
            snapshot: awaited(self.snapshot),
            manifest: awaited(self.manifest),
        }
    }
}

/// What an inspection needs next, or how it ended.
#[derive(Debug)]
pub enum InspectionStep {
    Failed(BrainError),
    /// Admit this checkpoint file and take its length.
    MeasureFile(FilePath),
    /// Read the headers of this checkpoint file and digest it.
    ReadFile(FilePath),
    /// Admit and digest the configuration file.
    ReadConfiguration(FilePath),
    /// Admit and digest the tokenizer file.
    ReadTokenizer(FilePath),
    /// Fingerprint the configuration together with these tensor names.
    Fingerprint(Vec<String>),
    /// Read these names as tensor identities.
    Identify(Vec<String>),
    /// Lay these blocks out as one parameter vector.
    MeasureGeometry(Vec<BlockShapeSpec>),
    /// Create the layout of this geometry for this profile.
    CreateLayout {
        profile: ReceiverProfile,
        geometry: ParameterLayoutArtifact,
        physical: Vec<ReceiverTensorPhysicalSpec>,
    },
    /// Digest the digests of all checkpoint files together, in the domain of a
    /// SafeTensors snapshot.
    DigestFiles(Vec<FileDigest>),
    /// Bind the profile to the digests of everything that was read.
    BindSnapshot {
        profile: ReceiverProfile,
        model_snapshot: Sha256Digest,
        configuration: Sha256Digest,
        tokenizer: Sha256Digest,
        layout: Sha256Digest,
    },
    /// Digest these artifacts in the domain of inspected artifacts; their own
    /// digest is still zero.
    Seal(InspectedReceiverArtifacts),
    Done(InspectedReceiverArtifacts),
}

/// The model of an [`InspectionStep`].
pub enum StepModel {
    Failed(ErrorView),
    MeasureFile(PathModel),
    ReadFile(PathModel),
    ReadConfiguration(PathModel),
    ReadTokenizer(PathModel),
    Fingerprint(Seq<Seq<char>>),
    Identify(Seq<Seq<char>>),
    MeasureGeometry(Seq<BlockModel>),
    CreateLayout { profile: ProfileModel, geometry: GeometryModel, physical: Seq<PhysicalModel> },
    DigestFiles(Seq<FileDigestModel>),
    BindSnapshot {
        profile: ProfileModel,
        model_snapshot: Seq<char>,
        configuration: Seq<char>,
        tokenizer: Seq<char>,
        layout: Seq<char>,
    },
    Seal(ArtifactsModel),
    Done(ArtifactsModel),
}

impl View for InspectionStep {
    type V = StepModel;

    open spec fn view(&self) -> StepModel {
        match self {
            InspectionStep::Failed(error) => StepModel::Failed(error@),
            InspectionStep::MeasureFile(path) => StepModel::MeasureFile(path@),
            InspectionStep::ReadFile(path) => StepModel::ReadFile(path@),
            InspectionStep::ReadConfiguration(path) => StepModel::ReadConfiguration(path@),
            InspectionStep::ReadTokenizer(path) => StepModel::ReadTokenizer(path@),
            InspectionStep::Fingerprint(names) => StepModel::Fingerprint(views(names@)),
            InspectionStep::Identify(names) => StepModel::Identify(views(names@)),
            InspectionStep::MeasureGeometry(shapes) => StepModel::MeasureGeometry(views(shapes@)),
            InspectionStep::CreateLayout { profile, geometry, physical } =>
                StepModel::CreateLayout {
                    profile: profile@,
                    geometry: geometry@,
                    physical: views(physical@),
                },
            InspectionStep::DigestFiles(files) => StepModel::DigestFiles(views(files@)),
            InspectionStep::BindSnapshot {
                profile,
                model_snapshot,
                configuration,
                tokenizer,
                layout,
            } => StepModel::BindSnapshot {
                profile: profile@,
                model_snapshot: model_snapshot@,
                configuration: configuration@,
                tokenizer: tokenizer@,
                layout: layout@,
            },
            InspectionStep::Seal(artifacts) => StepModel::Seal(artifacts@),
            InspectionStep::Done(artifacts) => StepModel::Done(artifacts@),
        }
    }
}

/// Whether a request is complete enough to be looked at.
pub open spec fn request_acceptable(request: RequestModel) -> bool {
    &&& request.schema == "cerebro.tidex.safetensors_receiver_request/v1"@
    &&& 0 < request.checkpoint_files.len() <= MAX_CHECKPOINT_FILES
    &&& request.modalities.len() > 0
    &&& request.supported_strategies.len() > 0
}

/// The names of the entries of a table.
pub open spec fn names_of(table: Seq<NamedModel<HeaderModel>>) -> Seq<Seq<char>> {
    Seq::new(table.len(), |i: int| table[i].name)
}

/// Every checkpoint file with its digest.
pub open spec fn files_digested(files: Seq<PathModel>, digests: Seq<Seq<char>>) -> Seq<
    FileDigestModel,
> {
    Seq::new(files.len(), |i: int| FileDigestModel { file: files[i], sha256: digests[i] })
}

/// The profile of the requested receiver.
pub open spec fn profile_described(
    request: RequestModel,
    architecture: ArchitectureModel,
    parameter_dimension: u64,
    regions: Seq<RegionModel>,
) -> ProfileModel {
    ProfileModel {
        schema: "cerebro.tidex.receiver_profile/v1"@,
        model_id: request.model_id,
        architecture_id: request.architecture_id,
        architecture,
        modalities: request.modalities,
        supports_persistent_state: request.supports_persistent_state,
        parameter_dimension,
        regions,
    }
}

/// What was read of a receiver: the digested files, the digests of its
/// configuration and tokenizer, and its fingerprint.
pub struct EvidenceModel {
    pub files: Seq<FileDigestModel>,
    pub configuration: Seq<char>,
    pub tokenizer: Seq<char>,
    pub fingerprint: FingerprintModel,
}

/// The artifacts of a receiver.
pub open spec fn artifacts_bound(
    profile: ProfileModel,
    layout: LayoutModel,
    snapshot: SnapshotModel,
    evidence: EvidenceModel,
    manifest: Seq<char>,
) -> ArtifactsModel {
    ArtifactsModel {
        schema: "cerebro.tidex.inspected_receiver_artifacts/v1"@,
        profile,
        layout,
        snapshot,
        architecture_fingerprint: evidence.fingerprint,
        checkpoint_file_sha256: evidence.files,
        manifest_sha256: manifest,
    }
}

/// The next step once the profile is known.
pub open spec fn step_of_profile(
    progress: ProgressModel,
    evidence: EvidenceModel,
    profile: ProfileModel,
    geometry: GeometryModel,
    physical: Seq<PhysicalModel>,
) -> StepModel {
    match progress.layout {
        None => StepModel::CreateLayout { profile, geometry, physical },
        Some(Err(error)) => StepModel::Failed(error),
        Some(Ok(layout)) => match progress.model_snapshot {
            None => StepModel::DigestFiles(evidence.files),
            Some(Err(error)) => StepModel::Failed(error),
            Some(Ok(model_snapshot)) => match progress.snapshot {
                None => StepModel::BindSnapshot {
                    profile,
                    model_snapshot,
                    configuration: evidence.configuration,
                    tokenizer: evidence.tokenizer,
                    layout,
                },
                Some(Err(error)) => StepModel::Failed(error),
                Some(Ok(binding)) => {
                    let laid_out = LayoutModel { geometry, manifest_sha256: layout };
                    let snapshot = SnapshotModel {
                        model_snapshot_sha256: model_snapshot,
                        manifest_sha256: binding,
                    };
                    match progress.manifest {
                        None => StepModel::Seal(
                            artifacts_bound(profile, laid_out, snapshot, evidence, zero_digest()),
                        ),
                        Some(Err(error)) => StepModel::Failed(error),
                        Some(Ok(manifest)) => StepModel::Done(
                            artifacts_bound(profile, laid_out, snapshot, evidence, manifest),
                        ),
                    }
                },
            },
        },
    }
}

/// How many parameters blocks have together.
pub open spec fn parameters_of(blocks: Seq<BlockModel>) -> int
    decreases blocks.len(),
{
    if blocks.len() == 0 {
        0
    } else {
        parameters_of(blocks.drop_last()) + blocks.last().count
    }
}

/// The next step once the tensors to materialise are selected. The blocks of the
/// layout are those of the selected tensors, and their parameters are the
/// parameters of the profile.
pub open spec fn step_of_selection(
    request: RequestModel,
    progress: ProgressModel,
    evidence: EvidenceModel,
    architecture: ArchitectureModel,
    selected: Seq<NamedModel<HeaderModel>>,
) -> StepModel {
    match progress.identities {
        Some(identities) => if identities.len() == selected.len() {
            match tensors_described(
                selected,
                identities,
                request.supported_strategies,
                selected.len() as int,
            ) {
                Err(error) => StepModel::Failed(error),
                Ok(description) => match progress.geometry {
                    None => StepModel::MeasureGeometry(description.shapes),
                    Some(Err(error)) => StepModel::Failed(error),
                    Some(Ok(_)) => if parameters_of(description.shapes) > u64::MAX {
                        StepModel::Failed(ErrorView::Invalid("checkpoint_parameter_overflow"@))
                    } else {
                        let total = parameters_of(description.shapes) as u64;
                        step_of_profile(
                            progress,
                            evidence,
                            profile_described(request, architecture, total, description.regions),
                            GeometryModel {
                                total_parameter_count: total,
                                blocks: description.shapes,
                            },
                            description.physical,
                        )
                    },
                },
            }
        } else {
            StepModel::Identify(names_of(selected))
        },
        None => StepModel::Identify(names_of(selected)),
    }
}

/// The digest of a file that may not have been read yet.
pub open spec fn read_once(file: Option<AuxiliaryModel>) -> Option<Result<Seq<char>, ErrorView>> {
    match file {
        Some(file) => Some(file.admitted()),
        None => None,
    }
}

/// The next step once every checkpoint file is read.
pub open spec fn step_of_checkpoint(
    request: RequestModel,
    progress: ProgressModel,
    files: Seq<FileDigestModel>,
    tensors: Seq<NamedModel<HeaderModel>>,
) -> StepModel {
    match read_once(progress.configuration) {
        None => StepModel::ReadConfiguration(request.configuration_file),
        Some(Err(error)) => StepModel::Failed(error),
        Some(Ok(configuration)) => match read_once(progress.tokenizer) {
            None => StepModel::ReadTokenizer(request.tokenizer_file),
            Some(Err(error)) => StepModel::Failed(error),
            Some(Ok(tokenizer)) => match progress.fingerprint {
                None => StepModel::Fingerprint(names_of(tensors)),
                Some(Err(error)) => StepModel::Failed(error),
                Some(Ok(fingerprint)) => match (
                    architecture_outcome(request.architecture, fingerprint.receiver_architecture),
                    selection_outcome(tensors, request.materialization_tensors),
                ) {
                    (Err(error), _) => StepModel::Failed(error),
                    (_, Err(error)) => StepModel::Failed(error),
                    (Ok(architecture), Ok(selected)) => step_of_selection(
                        request,
                        progress,
                        EvidenceModel { files, configuration, tokenizer, fingerprint },
                        architecture,
                        selected,
                    ),
                },
            },
        },
    }
}

/// The request with its modalities, its strategies and its tensors as sets.
pub open spec fn with_sets(request: RequestModel) -> RequestModel {
    RequestModel {
        modalities: ordered_set(request.modalities),
        supported_strategies: ordered_set(request.supported_strategies),
        materialization_tensors: ordered_set(request.materialization_tensors),
        ..request
    }
}

/// The next step of an inspection.
pub open spec fn inspection_step(request: RequestModel, progress: ProgressModel) -> StepModel {
    step_of_request(with_sets(request), progress)
}

/// The next step of an inspection whose request holds sets.
pub open spec fn step_of_request(request: RequestModel, progress: ProgressModel) -> StepModel {
    let files = sorted(request.checkpoint_files);
    if !request_acceptable(request) {
        StepModel::Failed(ErrorView::Invalid("safetensors_receiver_request_invalid"@))
    } else if !distinct_keys(request.checkpoint_files) {
        StepModel::Failed(ErrorView::Invalid("checkpoint_files_not_unique"@))
    } else {
        match files_merged(progress.files, files.len() as int) {
            UnionModel::Failed(error) => StepModel::Failed(error),
            UnionModel::Measure(position) => StepModel::MeasureFile(files[position]),
            UnionModel::Read(position) => StepModel::ReadFile(files[position]),
            UnionModel::Merged { tensors, digests, .. } => step_of_checkpoint(
                request,
                progress,
                files_digested(files, digests),
                tensors,
            ),
        }
    }
}

/// What was read of a receiver, in memory.
struct Evidence {
    files: Vec<FileDigest>,
    configuration: Sha256Digest,
    tokenizer: Sha256Digest,
    fingerprint: ArchitectureFamilyFingerprint,
}

impl Evidence {
    spec fn model(&self) -> EvidenceModel {
        EvidenceModel {
            files: views(self.files@),
            configuration: self.configuration@,
            tokenizer: self.tokenizer@,
            fingerprint: self.fingerprint@,
        }
    }
}

/// The names of the entries of a table.
fn table_names(table: &Vec<Named<TensorHeader>>) -> (names: Vec<String>)
    ensures
        views(names@) == names_of(views(table@)),
{
    let ghost wanted = names_of(views(table@));
    let mut names: Vec<String> = Vec::new();
    assert(wanted.take(0) =~= views(names@));
    for i in 0..table.len()
        invariant
            wanted == names_of(views(table@)),
            views(names@) == wanted.take(i as int),
    {
        names.push(table[i].name.clone());
        proof {
            take_one_more(wanted, i as int);
        }
    }
    assert(wanted.take(wanted.len() as int) == wanted);
    names
}

/// Pairs every file with its digest.
fn digest_files(files: &Vec<FilePath>, digests: &Vec<Sha256Digest>) -> (paired: Vec<FileDigest>)
    requires
        files@.len() == digests@.len(),
    ensures
        views(paired@) == files_digested(views(files@), views(digests@)),
{
    let ghost wanted = files_digested(views(files@), views(digests@));
    let mut paired: Vec<FileDigest> = Vec::new();
    assert(wanted.take(0) =~= views(paired@));
    for i in 0..files.len()
        invariant
            files@.len() == digests@.len(),
            wanted == files_digested(views(files@), views(digests@)),
            views(paired@) == wanted.take(i as int),
    {
        paired.push(FileDigest { file: files[i].duplicate(), sha256: digests[i].clone() });
        proof {
            take_one_more(wanted, i as int);
        }
    }
    assert(wanted.take(wanted.len() as int) == wanted);
    paired
}

/// The artifacts of a receiver.
fn bind_artifacts(
    profile: ReceiverProfile,
    layout: ReceiverMaterializationLayout,
    snapshot: ReceiverSnapshotBinding,
    evidence: Evidence,
    manifest: Sha256Digest,
) -> (artifacts: InspectedReceiverArtifacts)
    ensures
        artifacts@ == artifacts_bound(
            profile@,
            layout@,
            snapshot@,
            evidence.model(),
            manifest@,
        ),
{
    InspectedReceiverArtifacts {
        schema: "cerebro.tidex.inspected_receiver_artifacts/v1".to_owned(),
        profile,
        layout,
        snapshot,
        architecture_fingerprint: evidence.fingerprint,
        checkpoint_file_sha256: evidence.files,
        manifest_sha256: manifest,
    }
}

fn after_profile(
    progress: &InspectionProgress,
    evidence: Evidence,
    profile: ReceiverProfile,
    geometry: ParameterLayoutArtifact,
    physical: Vec<ReceiverTensorPhysicalSpec>,
) -> (step: InspectionStep)
    ensures
        step@ == step_of_profile(
            progress@,
            evidence.model(),
            profile@,
            geometry@,
            views(physical@),
        ),
{
    let layout = match &progress.layout {
        None => {
            return InspectionStep::CreateLayout { profile, geometry, physical };
        },
        Some(Err(error)) => {
            return InspectionStep::Failed(error.duplicate());
        },
        Some(Ok(layout)) => layout.clone(),
    };
    let model_snapshot = match &progress.model_snapshot {
        None => {
            return InspectionStep::DigestFiles(evidence.files);
        },
        Some(Err(error)) => {
            return InspectionStep::Failed(error.duplicate());
        },
        Some(Ok(digest)) => digest.clone(),
    };
    let binding = match &progress.snapshot {
        None => {
            return InspectionStep::BindSnapshot {
                profile,
                model_snapshot,
                configuration: evidence.configuration,
                tokenizer: evidence.tokenizer,
                layout,
            };
        },
        Some(Err(error)) => {
            return InspectionStep::Failed(error.duplicate());
        },
        Some(Ok(binding)) => binding.clone(),
    };
    let laid_out = ReceiverMaterializationLayout { geometry, manifest_sha256: layout };
    let snapshot = ReceiverSnapshotBinding {
        model_snapshot_sha256: model_snapshot,
        manifest_sha256: binding,
    };
    match &progress.manifest {
        None => InspectionStep::Seal(
            bind_artifacts(profile, laid_out, snapshot, evidence, Sha256Digest::zero()),
        ),
        Some(Err(error)) => InspectionStep::Failed(error.duplicate()),
        Some(Ok(manifest)) => InspectionStep::Done(
            bind_artifacts(profile, laid_out, snapshot, evidence, manifest.clone()),
        ),
    }
}

/// How many parameters blocks have together, where that can be counted.
fn count_parameters(blocks: &Vec<BlockShapeSpec>) -> (total: Option<u64>)
    ensures
        match total {
            Some(total) => total == parameters_of(views(blocks@)),
            None => parameters_of(views(blocks@)) > u64::MAX,
        },
{
    let ghost models = views(blocks@);
    let mut total: u64 = 0;
    assert(models.take(0) == Seq::<BlockModel>::empty());
    for i in 0..blocks.len()
        invariant
            models == views(blocks@),
            total == parameters_of(models.take(i as int)),
    {
        assert(models.take(i + 1).drop_last() == models.take(i as int));
        assert(models.take(i + 1).last() == blocks@[i as int]@);
        total = match total.checked_add(blocks[i].count as u64) {
            Some(sum) => sum,
            None => {
                proof {
                    lemma_parameters_grow(models, i + 1);
                }
                return None;
            },
        };
    }
    assert(models.take(models.len() as int) == models);
    Some(total)
}

proof fn lemma_parameters_grow(blocks: Seq<BlockModel>, n: int)
    requires
        0 <= n <= blocks.len(),
    ensures
        parameters_of(blocks.take(n)) <= parameters_of(blocks),
    decreases blocks.len() - n,
{
    if n == blocks.len() {
        assert(blocks.take(n) == blocks);
    } else {
        assert(blocks.take(n + 1).drop_last() == blocks.take(n));
        lemma_parameters_grow(blocks, n + 1);
    }
}

fn after_selection(
    request: &SafeTensorsReceiverRequest,
    progress: &InspectionProgress,
    evidence: Evidence,
    architecture: ReceiverArchitecture,
    selected: Vec<Named<TensorHeader>>,
) -> (step: InspectionStep)
    ensures
        step@ == step_of_selection(
            request@,
            progress@,
            evidence.model(),
            architecture@,
            views(selected@),
        ),
{
    let identities = match &progress.identities {
        Some(identities) if identities.len() == selected.len() => identities,
        _ => {
            return InspectionStep::Identify(table_names(&selected));
        },
    };
    let description = match describe_materialization(
        &selected,
        identities,
        &request.supported_strategies,
    ) {
        Ok(description) => description,
        Err(error) => {
            return InspectionStep::Failed(error);
        },
    };
    match &progress.geometry {
        None => {
            return InspectionStep::MeasureGeometry(description.shapes);
        },
        Some(Err(error)) => {
            return InspectionStep::Failed(error.duplicate());
        },
        Some(Ok(_)) => {},
    }
    let total: u64 = match count_parameters(&description.shapes) {
        Some(total) => total,
        None => {
            return InspectionStep::Failed(BrainError::invalid("checkpoint_parameter_overflow"));
        },
    };
    let profile = ReceiverProfile {
        schema: "cerebro.tidex.receiver_profile/v1".to_owned(),
        model_id: request.model_id.clone(),
        architecture_id: request.architecture_id.clone(),
        architecture,
        modalities: modalities_copy(&request.modalities),
        supports_persistent_state: request.supports_persistent_state,
        parameter_dimension: total,
        regions: description.regions,
    };
    let geometry = ParameterLayoutArtifact {
        total_parameter_count: total,
        blocks: description.shapes,
    };
    after_profile(progress, evidence, profile, geometry, description.physical)
}

fn after_checkpoint(
    request: &SafeTensorsReceiverRequest,
    progress: &InspectionProgress,
    files: Vec<FileDigest>,
    tensors: &Vec<Named<TensorHeader>>,
) -> (step: InspectionStep)
    requires
        strictly_ascending(views(tensors@)),
    ensures
        step@ == step_of_checkpoint(request@, progress@, views(files@), views(tensors@)),
{
    let configuration = match &progress.configuration {
        None => {
            return InspectionStep::ReadConfiguration(request.configuration_file.duplicate());
        },
        Some(file) => match file.admitted() {
            Ok(digest) => digest,
            Err(error) => {
                return InspectionStep::Failed(error);
            },
        },
    };
    let tokenizer = match &progress.tokenizer {
        None => {
            return InspectionStep::ReadTokenizer(request.tokenizer_file.duplicate());
        },
        Some(file) => match file.admitted() {
            Ok(digest) => digest,
            Err(error) => {
                return InspectionStep::Failed(error);
            },
        },
    };
    let fingerprint = match &progress.fingerprint {
        None => {
            return InspectionStep::Fingerprint(table_names(tensors));
        },
        Some(Err(error)) => {
            return InspectionStep::Failed(error.duplicate());
        },
        Some(Ok(fingerprint)) => ArchitectureFamilyFingerprint {
            receiver_architecture: fingerprint.receiver_architecture.clone(),
            model_family: fingerprint.model_family.clone(),
        },
    };
    let architecture = match resolve_architecture(
        &request.architecture,
        &fingerprint.receiver_architecture,
    ) {
        Ok(architecture) => architecture,
        Err(error) => {
            return InspectionStep::Failed(error);
        },
    };
    let selected = match select_materialization_tensors(
        tensors,
        &request.materialization_tensors,
    ) {
        Ok(selected) => selected,
        Err(error) => {
            return InspectionStep::Failed(error);
        },
    };
    let evidence = Evidence { files, configuration, tokenizer, fingerprint };
    after_selection(request, progress, evidence, architecture, selected)
}

/// A copy of a list of tensor identities.
fn tensors_copy(list: &Vec<TensorId>) -> (copy: Vec<TensorId>)
    ensures
        copy@ == list@,
{
    let mut copy: Vec<TensorId> = Vec::new();
    for i in 0..list.len()
        invariant
            copy@ == list@.take(i as int),
    {
        copy.push(list[i].clone());
        assert(list@.take(i + 1) == list@.take(i as int).push(list@[i as int]));
    }
    assert(list@.take(list@.len() as int) == list@);
    copy
}

/// A copy of the request with its modalities, its strategies and its tensors as
/// sets.
fn make_sets(request: &SafeTensorsReceiverRequest) -> (copy: SafeTensorsReceiverRequest)
    ensures
        copy@ == with_sets(request@),
{
    let supported_strategies = to_set(strategies_copy(&request.supported_strategies));
    assert(views(supported_strategies@) =~= supported_strategies@);
    assert(views(request.supported_strategies@) =~= request.supported_strategies@);
    SafeTensorsReceiverRequest {
        schema: request.schema.clone(),
        model_id: request.model_id.clone(),
        architecture_id: request.architecture_id.clone(),
        architecture: request.architecture.clone(),
        modalities: to_set(modalities_copy(&request.modalities)),
        supports_persistent_state: request.supports_persistent_state,
        checkpoint_files: paths_copy(&request.checkpoint_files),
        configuration_file: request.configuration_file.duplicate(),
        tokenizer_file: request.tokenizer_file.duplicate(),
        supported_strategies,
        materialization_tensors: to_set(tensors_copy(&request.materialization_tensors)),
    }
}

/// Decides what the inspection of a receiver checkpoint needs next, or how it
/// ends.
pub fn inspect_safetensors_receiver(
    request: &SafeTensorsReceiverRequest,
    progress: &InspectionProgress,
) -> (step: InspectionStep)
    ensures
        step@ == inspection_step(request@, progress@),
{
    let request = make_sets(request);
    inspect_request(&request, progress)
}

fn inspect_request(request: &SafeTensorsReceiverRequest, progress: &InspectionProgress) -> (step:
    InspectionStep)
    ensures
        step@ == step_of_request(request@, progress@),
{
    if !text_eq(request.schema.as_str(), "cerebro.tidex.safetensors_receiver_request/v1")
        || request.checkpoint_files.len() == 0 || request.checkpoint_files.len()
        > MAX_CHECKPOINT_FILES || request.modalities.len() == 0
        || request.supported_strategies.len() == 0 {
        return InspectionStep::Failed(BrainError::invalid("safetensors_receiver_request_invalid"));
    }
    let files = sort(paths_copy(&request.checkpoint_files));
    proof {
        sorting_permutes_and_ascends(request@.checkpoint_files);
        sorting_keeps_distinctness(request@.checkpoint_files);
    }
    if !strictly_sorted(&files) {
        return InspectionStep::Failed(BrainError::invalid("checkpoint_files_not_unique"));
    }
    match merge_checkpoint_files(&progress.files, files.len()) {
        UnionStep::Failed(error) => InspectionStep::Failed(error),
        UnionStep::Measure(position) => {
            proof {
                lemma_positions(views(progress.files@), files@.len() as int);
            }
            InspectionStep::MeasureFile(files[position].duplicate())
        },
        UnionStep::Read(position) => {
            proof {
                lemma_positions(views(progress.files@), files@.len() as int);
            }
            InspectionStep::ReadFile(files[position].duplicate())
        },
        UnionStep::Merged(union) => {
            proof {
                lemma_positions(views(progress.files@), files@.len() as int);
            }
            let digested = digest_files(&files, &union.digests);
            after_checkpoint(request, progress, digested, &union.tensors)
        },
    }
}

/// A copy of a list of paths.
fn paths_copy(paths: &Vec<FilePath>) -> (copy: Vec<FilePath>)
    ensures
        views(copy@) == views(paths@),
{
    let ghost models = views(paths@);
    let mut copy: Vec<FilePath> = Vec::new();
    assert(models.take(0) =~= views(copy@));
    for i in 0..paths.len()
        invariant
            models == views(paths@),
            views(copy@) == models.take(i as int),
    {
        copy.push(paths[i].duplicate());
        proof {
            take_one_more(models, i as int);
        }
    }
    assert(models.take(models.len() as int) == models);
    copy
}

proof fn lemma_positions(files: Seq<FileModel>, n: int)
    requires
        0 <= n,
    ensures
        match files_merged(files, n) {
            UnionModel::Failed(_) => true,
            UnionModel::Measure(position) => 0 <= position < n,
            UnionModel::Read(position) => 0 <= position < n,
            UnionModel::Merged { digests, .. } => digests.len() == n,
        },
    decreases n,
{
    if n > 0 {
        lemma_positions(files, n - 1);
    }
}

/// The artifacts of a receiver name every checkpoint file of the request, each
/// with the digest of all of its bytes.
pub proof fn artifacts_bind_every_checkpoint_file(request: RequestModel, progress: ProgressModel)
    requires
        inspection_step(request, progress) is Done,
    ensures
        ({
            let bound = inspection_step(request, progress)->Done_0.checkpoint_file_sha256;
            let files = sorted(request.checkpoint_files);
            &&& bound.len() == files.len()
            &&& forall|i: int|
                0 <= i < files.len() ==> (#[trigger] bound[i]).file == files[i]
                    && progress.files[i].content is Some
                    && progress.files[i].content->0.digest == Ok::<Seq<char>, ErrorView>(
                    bound[i].sha256,
                )
        }),
{
    let files = sorted(request.checkpoint_files);
    lemma_digests_read(progress.files, files.len() as int);
}

proof fn lemma_digests_read(files: Seq<FileModel>, n: int)
    requires
        0 <= n,
        files_merged(files, n) is Merged,
    ensures
        n <= files.len(),
        files_merged(files, n)->digests.len() == n,
        forall|i: int|
            0 <= i < n ==> (#[trigger] files[i]).content is Some && files[i].content->0.digest
                == Ok::<Seq<char>, ErrorView>(files_merged(files, n)->digests[i]),
    decreases n,
{
    if n > 0 {
        lemma_digests_read(files, n - 1);
    }
}

/// Choosing which tensors to materialise does not weaken what the artifacts bind.
/// Take two inspections that differ in nothing but that choice, on the same files:
/// what was read is the same, and so is the answer to every question that is the
/// same in both, which are the fingerprint of the whole checkpoint and the digest
/// of all its file digests. Then both bind the same files with the same digests,
/// under the same digest of the model and with the same fingerprint.
pub proof fn selection_does_not_weaken_the_checkpoint_binding(
    request: RequestModel,
    selection: Seq<Seq<char>>,
    progress: ProgressModel,
    other: ProgressModel,
)
    requires
        progress.files == other.files,
        progress.fingerprint == other.fingerprint,
        progress.model_snapshot == other.model_snapshot,
        inspection_step(request, progress) is Done,
        inspection_step(
            RequestModel { materialization_tensors: selection, ..request },
            other,
        ) is Done,
    ensures
        ({
            let a = inspection_step(request, progress)->Done_0;
            let b = inspection_step(
                RequestModel { materialization_tensors: selection, ..request },
                other,
            )->Done_0;
            &&& a.checkpoint_file_sha256 == b.checkpoint_file_sha256
            &&& a.snapshot.model_snapshot_sha256 == b.snapshot.model_snapshot_sha256
            &&& a.architecture_fingerprint == b.architecture_fingerprint
        }),
{
}

/// The digest of the model is asked for over the digests of all requested files,
/// whichever tensors are to be materialised; it is the one that the artifacts
/// bind.
pub proof fn model_digest_covers_every_checkpoint_file(
    request: RequestModel,
    progress: ProgressModel,
)
    ensures
        inspection_step(request, progress) matches StepModel::DigestFiles(files) ==> files
            == files_digested(
            sorted(request.checkpoint_files),
            files_merged(progress.files, sorted(request.checkpoint_files).len() as int)->digests,
        ),
        inspection_step(request, progress) matches StepModel::Done(artifacts) ==> {
            &&& artifacts.checkpoint_file_sha256 == files_digested(
                sorted(request.checkpoint_files),
                files_merged(
                    progress.files,
                    sorted(request.checkpoint_files).len() as int,
                )->digests,
            )
            &&& progress.model_snapshot == Some(
                Ok::<_, ErrorView>(artifacts.snapshot.model_snapshot_sha256),
            )
        },
{
}

/// The layout of the artifacts has one block for each selected tensor, with its
/// name, its shape and its count, and the parameters of the profile are those of
/// the blocks together.
pub proof fn layouts_hold_the_selected_tensors(request: RequestModel, progress: ProgressModel)
    requires
        inspection_step(request, progress) is Done,
    ensures
        ({
            let artifacts = inspection_step(request, progress)->Done_0;
            let blocks = artifacts.layout.geometry.blocks;
            let files = sorted(request.checkpoint_files);
            let selected = selection_outcome(
                files_merged(progress.files, files.len() as int)->tensors,
                ordered_set(request.materialization_tensors),
            )->Ok_0;
            &&& blocks.len() == selected.len()
            &&& forall|i: int|
                0 <= i < blocks.len() ==> {
                    &&& (#[trigger] blocks[i]).name == selected[i].name
                    &&& blocks[i].shape == selected[i].value.shape
                    &&& bounded_product(blocks[i].shape, usize::MAX as int) == Some(
                        blocks[i].count as int,
                    )
                }
            &&& artifacts.profile.regions.len() == blocks.len()
            &&& artifacts.profile.parameter_dimension == parameters_of(blocks)
            &&& artifacts.layout.geometry.total_parameter_count == parameters_of(blocks)
        }),
{
    let files = sorted(request.checkpoint_files);
    let selected = selection_outcome(
        files_merged(progress.files, files.len() as int)->tensors,
        ordered_set(request.materialization_tensors),
    )->Ok_0;
    let blocks = tensors_described(
        selected,
        progress.identities->0,
        ordered_set(request.supported_strategies),
        selected.len() as int,
    )->Ok_0.shapes;
    assert(blocks.take(0) == Seq::<BlockModel>::empty());
    lemma_parameters_grow(blocks, 0);
    lemma_blocks_described(
        selected,
        progress.identities->0,
        ordered_set(request.supported_strategies),
        selected.len() as int,
    );
}

proof fn lemma_blocks_described(
    tensors: Seq<NamedModel<HeaderModel>>,
    identities: Seq<Result<Seq<char>, ErrorView>>,
    strategies: Seq<MaterializationStrategy>,
    n: int,
)
    requires
        0 <= n,
        tensors_described(tensors, identities, strategies, n) is Ok,
    ensures
        ({
            let description = tensors_described(tensors, identities, strategies, n)->Ok_0;
            let blocks = description.shapes;
            &&& blocks.len() == n
            &&& description.regions.len() == n
            &&& forall|i: int|
                0 <= i < n ==> {
                    &&& (#[trigger] blocks[i]).name == tensors[i].name
                    &&& blocks[i].shape == tensors[i].value.shape
                    &&& bounded_product(blocks[i].shape, usize::MAX as int) == Some(
                        blocks[i].count as int,
                    )
                }
        }),
    decreases n,
{
    if n > 0 {
        lemma_blocks_described(tensors, identities, strategies, n - 1);
        lemma_product_bounded(tensors[n - 1].value.shape, usize::MAX as int);
    }
}

proof fn lemma_product_bounded(shape: Seq<usize>, limit: int)
    requires
        limit >= 1,
    ensures
        bounded_product(shape, limit) matches Some(product) ==> 0 <= product <= limit,
    decreases shape.len(),
{
    if shape.len() > 0 {
        lemma_product_bounded(shape.drop_last(), limit);
        if let Some(product) = bounded_product(shape.drop_last(), limit) {
            assert(product * shape.last() >= 0) by (nonlinear_arith)
                requires
                    product >= 0,
                    shape.last() >= 0,
            ;
        }
    }
}

/// The profile of a receiver names each modality once, in ascending order, and
/// every one that the request names; the regions list the strategies likewise.
pub proof fn profiles_hold_sets(request: RequestModel, progress: ProgressModel, i: int)
    requires
        inspection_step(request, progress) is Done,
        0 <= i < inspection_step(request, progress)->Done_0.profile.regions.len(),
    ensures
        ({
            let profile = inspection_step(request, progress)->Done_0.profile;
            &&& profile.modalities == ordered_set(request.modalities)
            &&& strictly_ascending(profile.modalities)
            &&& profile.regions[i].supported_strategies == ordered_set(
                request.supported_strategies,
            )
            &&& strictly_ascending(profile.regions[i].supported_strategies)
        }),
{
    let files = sorted(request.checkpoint_files);
    let selected = selection_outcome(
        files_merged(progress.files, files.len() as int)->tensors,
        ordered_set(request.materialization_tensors),
    )->Ok_0;
    sets_ascend_and_keep_every_key(request.modalities, Seq::empty());
    sets_ascend_and_keep_every_key(request.supported_strategies, Seq::empty());
    lemma_regions_described(
        selected,
        progress.identities->0,
        ordered_set(request.supported_strategies),
        selected.len() as int,
        i,
    );
}

proof fn lemma_regions_described(
    tensors: Seq<NamedModel<HeaderModel>>,
    identities: Seq<Result<Seq<char>, ErrorView>>,
    strategies: Seq<MaterializationStrategy>,
    n: int,
    i: int,
)
    requires
        0 <= n,
        tensors_described(tensors, identities, strategies, n) is Ok,
        0 <= i < tensors_described(tensors, identities, strategies, n)->Ok_0.regions.len(),
    ensures
        tensors_described(tensors, identities, strategies, n)->Ok_0.regions[i].supported_strategies
            == strategies,
    decreases n,
{
    if n > 0 {
        let before = tensors_described(tensors, identities, strategies, n - 1)->Ok_0;
        if i < before.regions.len() {
            lemma_regions_described(tensors, identities, strategies, n - 1, i);
        }
    }
}

/// A receiver is never given another architecture than the one declared for it,
/// and never one that its checkpoint contradicts.
pub proof fn declared_architecture_is_kept(request: RequestModel, progress: ProgressModel)
    requires
        inspection_step(request, progress) is Done,
    ensures
        ({
            let artifacts = inspection_step(request, progress)->Done_0;
            let recognised = artifacts.architecture_fingerprint.receiver_architecture;
            &&& !(request.architecture is Unknown) ==> artifacts.profile.architecture
                == request.architecture
            &&& !(recognised is Unknown) ==> artifacts.profile.architecture == recognised
        }),
{
}

/// Whether an entry stands in the header table of one of the first files.
pub open spec fn in_checkpoint(
    files: Seq<FileModel>,
    n: int,
    entry: NamedModel<HeaderModel>,
) -> bool {
    exists|f: int, k: int|
        0 <= f < n && f < files.len() && files[f].content is Some
            && files[f].content->0.headers is Ok && 0 <= k
            < files[f].content->0.headers->Ok_0.len()
            && #[trigger] files[f].content->0.headers->Ok_0[k] == entry
}

/// Whether no two entries of a table share a name.
pub open spec fn names_differ(table: Seq<NamedModel<HeaderModel>>) -> bool {
    forall|i: int, j: int|
        0 <= i < j < table.len() ==> (#[trigger] table[i]).name != (#[trigger] table[j]).name
}

proof fn lemma_placed_entry(table: Seq<NamedModel<HeaderModel>>, entry: NamedModel<HeaderModel>)
    requires
        names_differ(table),
        !has_name(table, entry.name),
    ensures
        names_differ(placed(table, entry)),
        forall|e: NamedModel<HeaderModel>| #[trigger]
            placed(table, entry).contains(e) <==> table.contains(e) || e == entry,
{
    let at = crate::order::placing_is_insertion(table, entry);
    let more = placed(table, entry);
    assert forall|i: int, j: int| 0 <= i < j < more.len() implies (#[trigger] more[i]).name != (
    #[trigger] more[j]).name by {
        let a = if i < at {
            i
        } else {
            i - 1
        };
        let b = if j < at {
            j
        } else {
            j - 1
        };
        if i != at {
            assert(more[i] == table[a]);
        }
        if j != at {
            assert(more[j] == table[b]);
        }
    }
    assert forall|e: NamedModel<HeaderModel>| #[trigger]
        more.contains(e) <==> table.contains(e) || e == entry by {
        if more.contains(e) {
            let i = choose|i: int| 0 <= i < more.len() && more[i] == e;
            if i < at {
                assert(table[i] == e);
            } else if i > at {
                assert(table[i - 1] == e);
            }
        }
        if table.contains(e) {
            let i = choose|i: int| 0 <= i < table.len() && table[i] == e;
            if i < at {
                assert(more[i] == e);
            } else {
                assert(more[i + 1] == e);
            }
        }
        if e == entry {
            assert(more[at] == e);
        }
    }
}

proof fn lemma_table_merged(
    table: Seq<NamedModel<HeaderModel>>,
    entries: Seq<NamedModel<HeaderModel>>,
)
    requires
        names_differ(table),
    ensures
        table_merged(table, entries) matches Some(merged) ==> {
            &&& names_differ(merged)
            &&& forall|e: NamedModel<HeaderModel>| #[trigger]
                merged.contains(e) <==> table.contains(e) || entries.contains(e)
        },
    decreases entries.len(),
{
    if entries.len() > 0 {
        let front = entries.drop_last();
        lemma_table_merged(table, front);
        if table_merged(table, entries) is Some {
            let before = table_merged(table, front)->0;
            let merged = table_merged(table, entries)->0;
            lemma_placed_entry(before, entries.last());
            assert forall|e: NamedModel<HeaderModel>| #[trigger]
                merged.contains(e) <==> table.contains(e) || entries.contains(e) by {
                assert(entries.contains(e) <==> front.contains(e) || e == entries.last()) by {
                    if entries.contains(e) {
                        let i = choose|i: int| 0 <= i < entries.len() && entries[i] == e;
                        if i < front.len() {
                            assert(front[i] == e);
                        }
                    }
                    if front.contains(e) {
                        let i = choose|i: int| 0 <= i < front.len() && front[i] == e;
                        assert(entries[i] == e);
                    }
                    if e == entries.last() {
                        assert(entries[entries.len() - 1] == e);
                    }
                }
                assert(merged.contains(e) <==> before.contains(e) || e == entries.last());
            }
        }
    }
}

/// How many bytes the first files hold together.
pub open spec fn bytes_of(files: Seq<FileModel>, n: int) -> int {
    files.take(n).fold_left(0int, |total: int, file: FileModel| total + file.length->Ok_0)
}

/// The tensors of a checkpoint are those of its files, each under a name of its own,
/// and its files hold at most a pebibyte together.
pub proof fn checkpoints_are_the_union_of_their_files(files: Seq<FileModel>, n: int)
    requires
        0 <= n,
    ensures
        files_merged(files, n) matches UnionModel::Merged { total, tensors, digests } ==> {
            &&& n <= files.len()
            &&& total == bytes_of(files, n) <= 1_125_899_906_842_624
            &&& names_differ(tensors)
            &&& forall|entry: NamedModel<HeaderModel>| #[trigger]
                tensors.contains(entry) <==> in_checkpoint(files, n, entry)
            &&& forall|f: int|
                0 <= f < n ==> {
                    &&& (#[trigger] files[f]).length is Ok && files[f].content is Some
                    &&& files[f].content->0.headers is Ok
                    &&& files[f].content->0.digest == Ok::<_, ErrorView>(digests[f])
                }
        },
    decreases n,
{
    if n > 0 {
        checkpoints_are_the_union_of_their_files(files, n - 1);
        if files_merged(files, n) is Merged {
            lemma_digests_read(files, n);
            lemma_digests_read(files, n - 1);
            let before = files_merged(files, n - 1)->tensors;
            let tensors = files_merged(files, n)->tensors;
            let entries = files[n - 1].content->0.headers->Ok_0;
            lemma_table_merged(before, entries);
            assert(files.take(n).drop_last() =~= files.take(n - 1));
            assert(files.take(n).last() == files[n - 1]);
            assert forall|entry: NamedModel<HeaderModel>| #[trigger]
                tensors.contains(entry) <==> in_checkpoint(files, n, entry) by {
                if before.contains(entry) {
                    assert(in_checkpoint(files, n - 1, entry));
                    let (f, k) = choose|f: int, k: int|
                        0 <= f < n - 1 && f < files.len() && files[f].content is Some
                            && files[f].content->0.headers is Ok && 0 <= k
                            < files[f].content->0.headers->Ok_0.len()
                            && #[trigger] files[f].content->0.headers->Ok_0[k] == entry;
                    assert(files[f].content->0.headers->Ok_0[k] == entry);
                }
                if entries.contains(entry) {
                    let k = choose|k: int| 0 <= k < entries.len() && entries[k] == entry;
                    assert(files[n - 1].content->0.headers->Ok_0[k] == entry);
                }
                if in_checkpoint(files, n, entry) {
                    let (f, k) = choose|f: int, k: int|
                        0 <= f < n && f < files.len() && files[f].content is Some
                            && files[f].content->0.headers is Ok && 0 <= k
                            < files[f].content->0.headers->Ok_0.len()
                            && #[trigger] files[f].content->0.headers->Ok_0[k] == entry;
                    if f < n - 1 {
                        assert(in_checkpoint(files, n - 1, entry));
                        assert(before.contains(entry));
                    } else {
                        assert(entries.contains(entry));
                    }
                }
            }
        }
    } else {
        assert(files.take(0) =~= Seq::<FileModel>::empty());
    }
}

/// Whether the tensors to materialise are those that were asked for: every tensor of
/// the checkpoint where none is named, and otherwise exactly the named ones, in
/// their order.
pub open spec fn selected_as_asked(
    files: Seq<FileModel>,
    n: int,
    wanted: Seq<Seq<char>>,
    selected: Seq<NamedModel<HeaderModel>>,
) -> bool {
    &&& names_differ(selected)
    &&& forall|i: int| 0 <= i < selected.len() ==> in_checkpoint(files, n, #[trigger] selected[i])
    &&& wanted.len() == 0 ==> forall|entry: NamedModel<HeaderModel>|
        in_checkpoint(files, n, entry) ==> #[trigger] selected.contains(entry)
    &&& wanted.len() > 0 ==> selected.len() == wanted.len() && forall|i: int|
        0 <= i < wanted.len() ==> (#[trigger] selected[i]).name == wanted[i]
}

proof fn lemma_taken_entries(table: Seq<NamedModel<HeaderModel>>, wanted: Seq<Seq<char>>)
    requires
        entries_taken(table, wanted) is Ok,
    ensures
        ({
            let taken = entries_taken(table, wanted)->Ok_0;
            &&& taken.len() == wanted.len()
            &&& forall|i: int| 0 <= i < taken.len() ==> (#[trigger] taken[i]).name == wanted[i]
            &&& forall|i: int| 0 <= i < taken.len() ==> table.contains(#[trigger] taken[i])
            &&& names_differ(taken)
        }),
    decreases wanted.len(),
{
    if wanted.len() > 0 {
        let front = wanted.drop_last();
        lemma_taken_entries(table, front);
        let before = entries_taken(table, front)->Ok_0;
        let taken = entries_taken(table, wanted)->Ok_0;
        let last = wanted.last();
        let k = choose|i: int| 0 <= i < table.len() && (#[trigger] table[i]).name == last;
        assert(0 <= k < table.len() && table[k].name == last);
        assert(taken[taken.len() - 1] == table[k]);
        assert(table.contains(table[k]));
        assert forall|i: int| 0 <= i < taken.len() implies (#[trigger] taken[i]).name
            == wanted[i] by {
            if i < before.len() {
                assert(taken[i] == before[i]);
                assert(front[i] == wanted[i]);
            }
        }
        assert forall|i: int| 0 <= i < taken.len() implies table.contains(#[trigger] taken[i]) by {
            if i < before.len() {
                assert(taken[i] == before[i]);
            }
        }
        assert forall|i: int, j: int| 0 <= i < j < taken.len() implies (#[trigger] taken[i]).name
            != (#[trigger] taken[j]).name by {
            if j < before.len() {
                assert(taken[i] == before[i] && taken[j] == before[j]);
            } else {
                assert(front.contains(front[i]));
            }
        }
    }
}

proof fn lemma_selection(
    files: Seq<FileModel>,
    n: int,
    wanted: Seq<Seq<char>>,
)
    requires
        0 <= n,
        files_merged(files, n) is Merged,
        selection_outcome(files_merged(files, n)->tensors, wanted) is Ok,
    ensures
        selected_as_asked(
            files,
            n,
            wanted,
            selection_outcome(files_merged(files, n)->tensors, wanted)->Ok_0,
        ),
{
    checkpoints_are_the_union_of_their_files(files, n);
    let table = files_merged(files, n)->tensors;
    let selected = selection_outcome(table, wanted)->Ok_0;
    if wanted.len() > 0 {
        lemma_taken_entries(table, wanted);
    }
    assert forall|i: int| 0 <= i < selected.len() implies in_checkpoint(
        files,
        n,
        #[trigger] selected[i],
    ) by {
        assert(table.contains(selected[i]));
    }
}

/// What a block, a region and a physical specification say of a tensor: its name and
/// shape, its own identity, the number of its elements, the scalar type that its own
/// type names, and the strategies of the request.
pub open spec fn tells_of(
    tensor: NamedModel<HeaderModel>,
    identity: Result<Seq<char>, ErrorView>,
    block: BlockModel,
    region: RegionModel,
    physical: PhysicalModel,
    strategies: Seq<MaterializationStrategy>,
) -> bool {
    &&& block.name == tensor.name
    &&& block.shape == tensor.value.shape
    &&& block.count == elements_of(tensor.value.shape)
    &&& identity == Ok::<_, ErrorView>(region.tensor_id)
    &&& region.parameter_count == block.count
    &&& region.supported_strategies == strategies
    &&& physical.tensor_id == region.tensor_id
    &&& names_encoding(tensor.value.dtype, physical.encoding)
    &&& physical.partitioning == ReceiverTensorPartitioning::Replicated
}

proof fn lemma_description_tells(
    tensors: Seq<NamedModel<HeaderModel>>,
    identities: Seq<Result<Seq<char>, ErrorView>>,
    strategies: Seq<MaterializationStrategy>,
    n: int,
)
    requires
        0 <= n,
        tensors_described(tensors, identities, strategies, n) is Ok,
    ensures
        ({
            let description = tensors_described(tensors, identities, strategies, n)->Ok_0;
            &&& description.shapes.len() == n
            &&& description.regions.len() == n
            &&& description.physical.len() == n
            &&& forall|i: int|
                0 <= i < n ==> tells_of(
                    tensors[i],
                    identities[i],
                    #[trigger] description.shapes[i],
                    description.regions[i],
                    description.physical[i],
                    strategies,
                )
        }),
    decreases n,
{
    if n > 0 {
        lemma_description_tells(tensors, identities, strategies, n - 1);
        let tensor = tensors[n - 1];
        scalar_types_are_those_that_dtypes_name(tensor.value.dtype);
        counts_are_products_of_the_dimensions(tensor.value.shape, usize::MAX as int);
        lemma_product_bounded(tensor.value.shape, usize::MAX as int);
        let before = tensors_described(tensors, identities, strategies, n - 1)->Ok_0;
        let after = tensors_described(tensors, identities, strategies, n)->Ok_0;
        assert forall|i: int| 0 <= i < n implies tells_of(
            tensors[i],
            identities[i],
            #[trigger] after.shapes[i],
            after.regions[i],
            after.physical[i],
            strategies,
        ) by {
            if i < n - 1 {
                assert(after.shapes[i] == before.shapes[i]);
                assert(after.regions[i] == before.regions[i]);
                assert(after.physical[i] == before.physical[i]);
            }
        }
    }
}

/// How many parameters some blocks have together.
pub open spec fn elements_in(blocks: Seq<BlockModel>) -> int {
    blocks.fold_left(0int, |total: int, block: BlockModel| total + block.count)
}

proof fn lemma_parameters_are_elements(blocks: Seq<BlockModel>)
    ensures
        parameters_of(blocks) == elements_in(blocks) >= 0,
    decreases blocks.len(),
{
    if blocks.len() > 0 {
        lemma_parameters_are_elements(blocks.drop_last());
    }
}

/// A layout is made of the tensors that were asked for, and tells of each what its
/// checkpoint file says: in particular, each physical specification carries the
/// scalar type that the type of its tensor names. The profile repeats the request,
/// and its dimension is the number of all elements.
pub proof fn layouts_tell_of_the_checkpoint(
    request: RequestModel,
    progress: ProgressModel,
    profile: ProfileModel,
    geometry: GeometryModel,
    physical: Seq<PhysicalModel>,
) -> (selected: Seq<NamedModel<HeaderModel>>)
    requires
        inspection_step(request, progress) == (StepModel::CreateLayout {
            profile,
            geometry,
            physical,
        }),
    ensures
        selected_as_asked(
            progress.files,
            request.checkpoint_files.len() as int,
            ordered_set(request.materialization_tensors),
            selected,
        ),
        progress.identities is Some && progress.identities->0.len() == selected.len(),
        geometry.blocks.len() == selected.len(),
        profile.regions.len() == selected.len(),
        physical.len() == selected.len(),
        forall|i: int|
            0 <= i < selected.len() ==> tells_of(
                #[trigger] selected[i],
                progress.identities->0[i],
                geometry.blocks[i],
                profile.regions[i],
                physical[i],
                ordered_set(request.supported_strategies),
            ),
        geometry.total_parameter_count == elements_in(geometry.blocks),
        profile.parameter_dimension == geometry.total_parameter_count,
        profile.schema == "cerebro.tidex.receiver_profile/v1"@,
        profile.model_id == request.model_id,
        profile.architecture_id == request.architecture_id,
        profile.modalities == ordered_set(request.modalities),
        profile.supports_persistent_state == request.supports_persistent_state,
{
    lemma_described(request, progress)
}

proof fn lemma_described(request: RequestModel, progress: ProgressModel) -> (selected: Seq<
    NamedModel<HeaderModel>,
>)
    requires
        inspection_step(request, progress) is CreateLayout || inspection_step(
            request,
            progress,
        ) is Done || inspection_step(request, progress) is MeasureGeometry,
    ensures
        ({
            let sets = with_sets(request);
            let n = request.checkpoint_files.len() as int;
            let description = tensors_described(
                selected,
                progress.identities->0,
                sets.supported_strategies,
                selected.len() as int,
            );
            &&& sorted(request.checkpoint_files).len() == n
            &&& files_merged(progress.files, n) is Merged
            &&& selected == selection_outcome(
                files_merged(progress.files, n)->tensors,
                sets.materialization_tensors,
            )->Ok_0
            &&& selected_as_asked(progress.files, n, sets.materialization_tensors, selected)
            &&& progress.identities is Some && progress.identities->0.len() == selected.len()
            &&& description is Ok
            &&& description->Ok_0.shapes.len() == selected.len()
            &&& description->Ok_0.regions.len() == selected.len()
            &&& description->Ok_0.physical.len() == selected.len()
            &&& forall|i: int|
                0 <= i < selected.len() ==> tells_of(
                    #[trigger] selected[i],
                    progress.identities->0[i],
                    description->Ok_0.shapes[i],
                    description->Ok_0.regions[i],
                    description->Ok_0.physical[i],
                    sets.supported_strategies,
                )
            &&& parameters_of(description->Ok_0.shapes) == elements_in(description->Ok_0.shapes)
            &&& parameters_of(description->Ok_0.shapes) >= 0
        }),
{
    let sets = with_sets(request);
    sorting_permutes_and_ascends(request.checkpoint_files);
    let n = request.checkpoint_files.len() as int;
    let tensors = files_merged(progress.files, n)->tensors;
    let selected = selection_outcome(tensors, sets.materialization_tensors)->Ok_0;
    lemma_selection(progress.files, n, sets.materialization_tensors);
    lemma_description_tells(
        selected,
        progress.identities->0,
        sets.supported_strategies,
        selected.len() as int,
    );
    let description = tensors_described(
        selected,
        progress.identities->0,
        sets.supported_strategies,
        selected.len() as int,
    )->Ok_0;
    lemma_parameters_are_elements(description.shapes);
    assert forall|i: int| 0 <= i < selected.len() implies tells_of(
        #[trigger] selected[i],
        progress.identities->0[i],
        description.shapes[i],
        description.regions[i],
        description.physical[i],
        sets.supported_strategies,
    ) by {
        assert(tells_of(
            selected[i],
            progress.identities->0[i],
            description.shapes[i],
            description.regions[i],
            description.physical[i],
            sets.supported_strategies,
        ));
    }
    selected
}

/// Every file is asked for by the path that the request gives it: the checkpoint
/// files in ascending order, each measured before the next and read once it was
/// measured, then the configuration and the tokenizer.
pub proof fn files_are_asked_for_by_their_paths(request: RequestModel, progress: ProgressModel)
    ensures
        ({
            let step = inspection_step(request, progress);
            let files = sorted(request.checkpoint_files);
            &&& step matches StepModel::MeasureFile(path) ==> progress.files.len() < files.len()
                && path == files[progress.files.len() as int]
            &&& step matches StepModel::ReadFile(path) ==> exists|k: int|
                0 <= k < files.len() && k < progress.files.len() && path == #[trigger] files[k]
                    && progress.files[k].length is Ok && progress.files[k].content is None
            &&& step matches StepModel::ReadConfiguration(path) ==> path
                == request.configuration_file && progress.configuration is None
            &&& step matches StepModel::ReadTokenizer(path) ==> path == request.tokenizer_file
                && progress.tokenizer is None
        }),
{
    let files = sorted(request.checkpoint_files);
    lemma_asked_files(progress.files, files.len() as int);
    let merged = files_merged(progress.files, files.len() as int);
    if merged is Read {
        assert(files[merged->Read_0] == files[merged->Read_0]);
    }
}

proof fn lemma_asked_files(files: Seq<FileModel>, n: int)
    requires
        0 <= n,
    ensures
        files_merged(files, n) matches UnionModel::Measure(position) ==> position == files.len()
            && position < n,
        files_merged(files, n) matches UnionModel::Read(position) ==> 0 <= position < n && position
            < files.len() && files[position].length is Ok && files[position].content is None,
        files_merged(files, n) is Merged ==> n <= files.len(),
    decreases n,
{
    if n > 0 {
        lemma_asked_files(files, n - 1);
    }
}

/// The architecture is recognised from all tensors of the checkpoint, and the
/// identities are asked for those that are to be materialised.
pub proof fn names_are_those_of_the_checkpoint(
    request: RequestModel,
    progress: ProgressModel,
    name: Seq<char>,
)
    ensures
        ({
            let step = inspection_step(request, progress);
            let n = request.checkpoint_files.len() as int;
            let wanted = ordered_set(request.materialization_tensors);
            let named = exists|entry: NamedModel<HeaderModel>| #[trigger]
                in_checkpoint(progress.files, n, entry) && entry.name == name;
            &&& step matches StepModel::Fingerprint(names) ==> (names.contains(name) <==> named)
            &&& step matches StepModel::Identify(names) ==> {
                &&& wanted.len() == 0 ==> (names.contains(name) <==> named)
                &&& wanted.len() > 0 ==> names == wanted
                &&& wanted.len() > 0 && names.contains(name) ==> named
            }
        }),
{
    sorting_permutes_and_ascends(request.checkpoint_files);
    let n = request.checkpoint_files.len() as int;
    let step = inspection_step(request, progress);
    if step is Fingerprint || step is Identify {
        checkpoints_are_the_union_of_their_files(progress.files, n);
        let tensors = files_merged(progress.files, n)->tensors;
        lemma_names_in_checkpoint(progress.files, n, tensors, name);
        if step is Identify {
            let wanted = ordered_set(request.materialization_tensors);
            let selected = selection_outcome(tensors, wanted)->Ok_0;
            lemma_selection(progress.files, n, wanted);
            if wanted.len() > 0 {
                assert(names_of(selected) =~= wanted);
                if names_of(selected).contains(name) {
                    let i = choose|i: int| 0 <= i < selected.len() && names_of(selected)[i] == name;
                    assert(in_checkpoint(progress.files, n, selected[i]));
                }
            }
        }
    }
}

proof fn lemma_names_in_checkpoint(
    files: Seq<FileModel>,
    n: int,
    tensors: Seq<NamedModel<HeaderModel>>,
    name: Seq<char>,
)
    requires
        forall|entry: NamedModel<HeaderModel>| #[trigger]
            tensors.contains(entry) <==> in_checkpoint(files, n, entry),
    ensures
        names_of(tensors).contains(name) <==> exists|entry: NamedModel<HeaderModel>| #[trigger]
            in_checkpoint(files, n, entry) && entry.name == name,
{
    if names_of(tensors).contains(name) {
        let i = choose|i: int| 0 <= i < tensors.len() && names_of(tensors)[i] == name;
        assert(tensors.contains(tensors[i]));
        assert(in_checkpoint(files, n, tensors[i]));
    }
    if exists|entry: NamedModel<HeaderModel>| #[trigger]
        in_checkpoint(files, n, entry) && entry.name == name {
        let entry = choose|entry: NamedModel<HeaderModel>| #[trigger]
            in_checkpoint(files, n, entry) && entry.name == name;
        assert(tensors.contains(entry));
        let i = choose|i: int| 0 <= i < tensors.len() && tensors[i] == entry;
        assert(names_of(tensors)[i] == name);
    }
}

/// A snapshot is bound to the digests that were taken: that of all files, that of
/// the configuration, that of the tokenizer and that of the layout, each in its
/// place; an auxiliary file of more than 256 MiB is not taken.
pub proof fn snapshots_bind_the_digests_that_were_taken(
    request: RequestModel,
    progress: ProgressModel,
)
    ensures
        inspection_step(request, progress) matches StepModel::BindSnapshot {
            profile,
            model_snapshot,
            configuration,
            tokenizer,
            layout,
        } ==> {
            &&& progress.model_snapshot == Some(Ok::<_, ErrorView>(model_snapshot))
            &&& progress.layout == Some(Ok::<_, ErrorView>(layout))
            &&& progress.configuration is Some && progress.configuration->0.digest == Ok::<
                _,
                ErrorView,
            >(configuration)
            &&& progress.configuration->0.length is Ok && progress.configuration->0.length->Ok_0
                <= 268_435_456
            &&& progress.tokenizer is Some && progress.tokenizer->0.digest == Ok::<_, ErrorView>(
                tokenizer,
            )
            &&& progress.tokenizer->0.length is Ok && progress.tokenizer->0.length->Ok_0
                <= 268_435_456
            &&& inspection_step(request, (ProgressModel { layout: None, ..progress })) is CreateLayout
            &&& inspection_step(
                request,
                (ProgressModel { layout: None, ..progress }),
            )->CreateLayout_profile == profile
        },
{
}

/// What an inspection ends with is what it made on the way: the profile and the
/// geometry for which the layout was created, the digests of the layout, of all
/// files and of the snapshot, the recognised architecture, and the digest under
/// which it was sealed. What is sealed is the same without that digest.
pub proof fn artifacts_hold_what_was_made(request: RequestModel, progress: ProgressModel)
    requires
        inspection_step(request, progress) is Done,
    ensures
        ({
            let artifacts = inspection_step(request, progress)->Done_0;
            let made = inspection_step(request, (ProgressModel { layout: None, ..progress }));
            let sealed = inspection_step(request, (ProgressModel { manifest: None, ..progress }));
            &&& artifacts.schema == "cerebro.tidex.inspected_receiver_artifacts/v1"@
            &&& made is CreateLayout
            &&& made->CreateLayout_profile == artifacts.profile
            &&& made->CreateLayout_geometry == artifacts.layout.geometry
            &&& progress.layout == Some(Ok::<_, ErrorView>(artifacts.layout.manifest_sha256))
            &&& progress.model_snapshot == Some(
                Ok::<_, ErrorView>(artifacts.snapshot.model_snapshot_sha256),
            )
            &&& progress.snapshot == Some(Ok::<_, ErrorView>(artifacts.snapshot.manifest_sha256))
            &&& progress.fingerprint == Some(
                Ok::<_, ErrorView>(artifacts.architecture_fingerprint),
            )
            &&& progress.manifest == Some(Ok::<_, ErrorView>(artifacts.manifest_sha256))
            &&& sealed == StepModel::Seal(
                ArtifactsModel { manifest_sha256: zero_digest(), ..artifacts },
            )
        }),
{
}

/// An architecture is refused exactly where the declared and the recognised one are
/// both known and differ; otherwise the known one is taken, the declared one first.
pub proof fn architectures_conflict_only_where_both_are_known(
    declared: ArchitectureModel,
    recognised: ArchitectureModel,
)
    ensures
        architecture_outcome(declared, recognised) is Err <==> !(declared is Unknown) && !(
        recognised is Unknown) && declared != recognised,
        architecture_outcome(declared, recognised) matches Ok(taken) ==> {
            &&& declared is Unknown ==> taken == recognised
            &&& !(declared is Unknown) ==> taken == declared
        },
{
}

/// An inspection is refused for what its request or its files show: a request
/// without files, modalities or strategies or with too many files, a file named
/// twice, a tensor in two files, a tensor that is not there, or files that hold too
/// much. A request in order whose files are in order is never refused before its
/// auxiliary files are read.
pub proof fn inspections_are_refused_for_what_they_show(
    request: RequestModel,
    progress: ProgressModel,
)
    ensures
        ({
            let step = inspection_step(request, progress);
            let files = request.checkpoint_files;
            let stated = {
                &&& request.schema == "cerebro.tidex.safetensors_receiver_request/v1"@
                &&& 0 < files.len() <= 16_384
                &&& request.modalities.len() > 0
                &&& request.supported_strategies.len() > 0
            };
            let unique = forall|i: int, j: int|
                0 <= i < j < files.len() ==> #[trigger] files[i] != #[trigger] files[j];
            let merged = files_merged(progress.files, files.len() as int);
            &&& !stated ==> step == StepModel::Failed(
                ErrorView::Invalid("safetensors_receiver_request_invalid"@),
            )
            &&& stated && !unique ==> step == StepModel::Failed(
                ErrorView::Invalid("checkpoint_files_not_unique"@),
            )
            &&& stated && unique && merged is Failed ==> step == StepModel::Failed(merged->Failed_0)
            &&& stated && unique && progress.files.len() == 0 ==> step == StepModel::MeasureFile(
                sorted(files)[0],
            )
            &&& stated && unique && merged is Merged && progress.configuration is None ==> step
                == StepModel::ReadConfiguration(request.configuration_file)
            &&& !(step is Failed) ==> stated && unique
        }),
{
    let files = request.checkpoint_files;
    sorting_permutes_and_ascends(files);
    sets_ascend_and_keep_every_key(request.modalities, Seq::empty());
    sets_ascend_and_keep_every_key(request.supported_strategies, Seq::empty());
    assert(distinct_keys(files) <==> forall|i: int, j: int|
        0 <= i < j < files.len() ==> #[trigger] files[i] != #[trigger] files[j]) by {
        assert forall|i: int, j: int| 0 <= i < j < files.len() implies (#[trigger] files[i]).key()
            == (#[trigger] files[j]).key() <==> files[i] == files[j] by {
            crate::paths::path_keys_are_faithful(files[i], files[j]);
        }
    }
    if progress.files.len() == 0 && files.len() > 0 {
        lemma_nothing_measured(progress.files, files.len() as int);
    }
}

proof fn lemma_nothing_measured(files: Seq<FileModel>, n: int)
    requires
        files.len() == 0,
        n > 0,
    ensures
        files_merged(files, n) == UnionModel::Measure(0),
    decreases n,
{
    reveal_with_fuel(files_merged, 2);
    if n > 1 {
        lemma_nothing_measured(files, n - 1);
    }
}

/// The files of a checkpoint are taken in one after the other: a file whose length
/// would take the whole beyond a pebibyte, whose table or digest could not be read,
/// or that repeats a tensor ends the inspection, and a file in order is added.
pub proof fn files_are_taken_in_one_after_the_other(files: Seq<FileModel>, n: int)
    requires
        0 <= n < files.len(),
        files_merged(files, n) is Merged,
    ensures
        ({
            let file = files[n];
            let next = files_merged(files, n + 1);
            let total = files_merged(files, n)->total;
            let tensors = files_merged(files, n)->tensors;
            let sized = file.length is Ok && total + file.length->Ok_0 <= 1_125_899_906_842_624;
            let content = file.content->0;
            let repeated = exists|k: int|
                0 <= k < content.headers->Ok_0.len() && (has_name(
                    tensors,
                    (#[trigger] content.headers->Ok_0[k]).name,
                ) || exists|j: int|
                    0 <= j < k && (#[trigger] content.headers->Ok_0[j]).name
                        == content.headers->Ok_0[k].name);
            &&& file.length is Err ==> next == UnionModel::Failed(file.length->Err_0)
            &&& file.length is Ok && u64::MAX >= total + file.length->Ok_0 > 1_125_899_906_842_624
                ==> next == UnionModel::Failed(ErrorView::Invalid("checkpoint_total_limit"@))
            &&& sized && file.content is None ==> next == UnionModel::Read(n)
            &&& sized && file.content is Some && content.headers is Err ==> next
                == UnionModel::Failed(content.headers->Err_0)
            &&& sized && file.content is Some && content.headers is Ok && repeated ==> next
                == UnionModel::Failed(ErrorView::Invalid("checkpoint_duplicate_tensor"@))
            &&& sized && file.content is Some && content.headers is Ok && !repeated
                && content.digest is Err ==> next == UnionModel::Failed(content.digest->Err_0)
            &&& sized && file.content is Some && content.headers is Ok && !repeated
                && content.digest is Ok ==> next is Merged
        }),
{
    let file = files[n];
    if file.content is Some && file.content->0.headers is Ok {
        lemma_merged_unless_repeated(
            files_merged(files, n)->tensors,
            file.content->0.headers->Ok_0,
        );
    }
}

proof fn lemma_merged_unless_repeated(
    table: Seq<NamedModel<HeaderModel>>,
    entries: Seq<NamedModel<HeaderModel>>,
)
    ensures
        table_merged(table, entries) is None <==> exists|k: int|
            0 <= k < entries.len() && (has_name(table, (#[trigger] entries[k]).name) || exists|
                j: int,
            |
                0 <= j < k && (#[trigger] entries[j]).name == entries[k].name),
        table_merged(table, entries) matches Some(merged) ==> forall|name: Seq<char>| #[trigger]
            has_name(merged, name) <==> has_name(table, name) || has_name(entries, name),
    decreases entries.len(),
{
    if entries.len() > 0 {
        let front = entries.drop_last();
        let last = entries.len() - 1;
        lemma_merged_unless_repeated(table, front);
        let name = entries[last].name;
        assert forall|k: int| 0 <= k < front.len() implies (#[trigger] front[k])
            == entries[k] by {}
        if table_merged(table, front) is None {
            let k = choose|k: int|
                0 <= k < front.len() && (has_name(table, (#[trigger] front[k]).name) || exists|
                    j: int,
                |
                    0 <= j < k && (#[trigger] front[j]).name == front[k].name);
            if !has_name(table, front[k].name) {
                let j = choose|j: int| 0 <= j < k && (#[trigger] front[j]).name == front[k].name;
                assert(entries[j].name == entries[k].name);
            }
            assert(entries[k] == front[k]);
        } else {
            let before = table_merged(table, front)->0;
            if has_name(front, name) {
                let j = choose|j: int| 0 <= j < front.len() && (#[trigger] front[j]).name == name;
                assert(entries[j].name == entries[last].name);
            }
            if table_merged(table, entries) is None {
                assert(has_name(before, name));
                assert(has_name(table, entries[last].name) || exists|j: int|
                    0 <= j < last && (#[trigger] entries[j]).name == entries[last].name);
            } else {
                let merged = table_merged(table, entries)->0;
                assert(!has_name(before, name));
                assert forall|k: int| 0 <= k < entries.len() implies !(has_name(
                    table,
                    (#[trigger] entries[k]).name,
                ) || exists|j: int|
                    0 <= j < k && (#[trigger] entries[j]).name == entries[k].name) by {
                    if k < last {
                        assert(front[k] == entries[k]);
                        if exists|j: int|
                            0 <= j < k && (#[trigger] entries[j]).name == entries[k].name {
                            let j = choose|j: int|
                                0 <= j < k && (#[trigger] entries[j]).name == entries[k].name;
                            assert(front[j].name == front[k].name);
                        }
                    } else {
                        if exists|j: int|
                            0 <= j < k && (#[trigger] entries[j]).name == entries[k].name {
                            let j = choose|j: int|
                                0 <= j < k && (#[trigger] entries[j]).name == entries[k].name;
                            assert(front[j].name == name);
                            assert(has_name(front, name));
                        }
                    }
                }
                assert forall|x: Seq<char>| #[trigger] has_name(merged, x) <==> has_name(table, x)
                    || has_name(entries, x) by {
                    crate::order::placing_adds_one_name(before, entries[last], x);
                    if has_name(entries, x) {
                        let k = choose|k: int| 0 <= k < entries.len() && (#[trigger] entries[k]).name == x;
                        if k < last {
                            assert(front[k].name == x);
                        }
                    }
                    if has_name(front, x) {
                        let k = choose|k: int| 0 <= k < front.len() && (#[trigger] front[k]).name == x;
                        assert(entries[k].name == x);
                    }
                    if x == name {
                        assert(entries[last].name == x);
                    }
                }
            }
        }
    }
}

/// Whatever an inspection asks for, it asks only while it has no answer, and an error
/// in answer to it is the error that the inspection fails with.
pub proof fn errors_end_an_inspection(
    request: RequestModel,
    progress: ProgressModel,
    error: ErrorView,
)
    ensures
        inspection_step(request, progress) is Fingerprint ==> progress.fingerprint is None && inspection_step(
            request,
            (ProgressModel { fingerprint: Some(Err::<FingerprintModel, _>(error)), ..progress }),
        ) == StepModel::Failed(error),
        inspection_step(request, progress) is MeasureGeometry ==> progress.geometry is None && inspection_step(
            request,
            (ProgressModel { geometry: Some(Err::<(), _>(error)), ..progress }),
        ) == StepModel::Failed(error),
        inspection_step(request, progress) is CreateLayout ==> progress.layout is None && inspection_step(
            request,
            (ProgressModel { layout: Some(Err::<Seq<char>, _>(error)), ..progress }),
        ) == StepModel::Failed(error),
        inspection_step(request, progress) is DigestFiles ==> progress.model_snapshot is None && inspection_step(
            request,
            (ProgressModel { model_snapshot: Some(Err::<Seq<char>, _>(error)), ..progress }),
        ) == StepModel::Failed(error),
        inspection_step(request, progress) is BindSnapshot ==> progress.snapshot is None && inspection_step(
            request,
            (ProgressModel { snapshot: Some(Err::<Seq<char>, _>(error)), ..progress }),
        ) == StepModel::Failed(error),
        inspection_step(request, progress) is Seal ==> progress.manifest is None && inspection_step(
            request,
            (ProgressModel { manifest: Some(Err::<Seq<char>, _>(error)), ..progress }),
        ) == StepModel::Failed(error),
{
}

/// The configuration and the tokenizer are taken in only if their length is known and
/// at most 256 MiB and their digest could be taken; otherwise the inspection fails for
/// that.
pub proof fn auxiliary_files_are_bounded(
    request: RequestModel,
    progress: ProgressModel,
    file: AuxiliaryModel,
)
    ensures
        inspection_step(request, progress) is ReadConfiguration ==> {
            let next = inspection_step(
                request,
                (ProgressModel { configuration: Some(file), ..progress }),
            );
            &&& file.length is Err ==> next == StepModel::Failed(file.length->Err_0)
            &&& file.length is Ok && file.length->Ok_0 > 268_435_456 ==> next == StepModel::Failed(
                ErrorView::Invalid("checkpoint_file_too_large"@),
            )
            &&& file.length is Ok && file.length->Ok_0 <= 268_435_456 && file.digest is Err ==> next
                == StepModel::Failed(file.digest->Err_0)
            &&& file.length is Ok && file.length->Ok_0 <= 268_435_456 && file.digest is Ok ==> next
                != inspection_step(request, progress)
        },
        inspection_step(request, progress) is ReadTokenizer ==> {
            let next = inspection_step(
                request,
                (ProgressModel { tokenizer: Some(file), ..progress }),
            );
            &&& file.length is Err ==> next == StepModel::Failed(file.length->Err_0)
            &&& file.length is Ok && file.length->Ok_0 > 268_435_456 ==> next == StepModel::Failed(
                ErrorView::Invalid("checkpoint_file_too_large"@),
            )
            &&& file.length is Ok && file.length->Ok_0 <= 268_435_456 && file.digest is Err ==> next
                == StepModel::Failed(file.digest->Err_0)
            &&& file.length is Ok && file.length->Ok_0 <= 268_435_456 && file.digest is Ok ==> next
                != inspection_step(request, progress)
        },
{
}

/// What is measured, digested and sealed on the way is what the artifacts hold: the
/// geometry is that of the blocks of the layout, and the files that the model's digest
/// is taken of are those that the artifacts list.
pub proof fn steps_show_what_the_artifacts_hold(request: RequestModel, progress: ProgressModel)
    requires
        inspection_step(request, progress) is Done,
    ensures
        ({
            let artifacts = inspection_step(request, progress)->Done_0;
            let measured = inspection_step(
                request,
                (ProgressModel { geometry: None, ..progress }),
            );
            let digested = inspection_step(
                request,
                (ProgressModel { model_snapshot: None, ..progress }),
            );
            let bound = inspection_step(request, (ProgressModel { snapshot: None, ..progress }));
            &&& measured == StepModel::MeasureGeometry(artifacts.layout.geometry.blocks)
            &&& digested == StepModel::DigestFiles(artifacts.checkpoint_file_sha256)
            &&& bound is BindSnapshot
            &&& bound->BindSnapshot_profile == artifacts.profile
            &&& bound->BindSnapshot_model_snapshot == artifacts.snapshot.model_snapshot_sha256
            &&& bound->BindSnapshot_layout == artifacts.layout.manifest_sha256
        }),
{
}

/// An inspection ends exactly when everything that it asks for after the files was
/// answered: the last answer that it waits for is the digest of its manifest.
pub proof fn inspections_end_when_everything_is_answered(
    request: RequestModel,
    progress: ProgressModel,
)
    ensures
        inspection_step(request, progress) is Done <==> {
            &&& inspection_step(request, (ProgressModel { manifest: None, ..progress })) is Seal
            &&& progress.manifest is Some && progress.manifest->0 is Ok
        },
        inspection_step(request, progress) is Seal ==> {
            &&& progress.configuration is Some
            &&& progress.tokenizer is Some
            &&& progress.fingerprint is Some && progress.fingerprint->0 is Ok
            &&& progress.identities is Some
            &&& progress.geometry is Some && progress.geometry->0 is Ok
            &&& progress.layout is Some && progress.layout->0 is Ok
            &&& progress.model_snapshot is Some && progress.model_snapshot->0 is Ok
            &&& progress.snapshot is Some && progress.snapshot->0 is Ok
        },
{
}

proof fn lemma_missing_tensors_are_refused(
    table: Seq<NamedModel<HeaderModel>>,
    wanted: Seq<Seq<char>>,
)
    ensures
        entries_taken(table, wanted) is Ok <==> {
            &&& forall|i: int| 0 <= i < wanted.len() ==> has_name(table, #[trigger] wanted[i])
            &&& forall|i: int, j: int|
                0 <= i < j < wanted.len() ==> #[trigger] wanted[i] != #[trigger] wanted[j]
        },
        entries_taken(table, wanted) matches Err(error) ==> error == ErrorView::Invalid(
            "materialization_tensor_not_in_checkpoint"@,
        ),
    decreases wanted.len(),
{
    if wanted.len() > 0 {
        let front = wanted.drop_last();
        let n = wanted.len() - 1;
        lemma_missing_tensors_are_refused(table, front);
        assert(forall|i: int| 0 <= i < n ==> front[i] == #[trigger] wanted[i]);
        assert(forall|i: int| 0 <= i < n ==> #[trigger] front[i] == wanted[i]);
        if front.contains(wanted[n]) {
            let i = choose|i: int| 0 <= i < front.len() && front[i] == wanted[n];
            assert(wanted[i] == wanted[n]);
        } else {
            assert forall|i: int| 0 <= i < n implies #[trigger] wanted[i] != wanted[n] by {
                assert(front[i] == wanted[i]);
            }
        }
    }
}

/// Once the architecture is recognised, an inspection is refused where it conflicts
/// with the declared one, and then where a wanted tensor is in no file of the
/// checkpoint; otherwise the selected tensors are identified.
pub proof fn conflicts_and_missing_tensors_are_refused(
    request: RequestModel,
    progress: ProgressModel,
    fingerprint: FingerprintModel,
)
    requires
        inspection_step(request, progress) is Fingerprint,
    ensures
        ({
            let next = inspection_step(
                request,
                (ProgressModel {
                    fingerprint: Some(Ok::<_, ErrorView>(fingerprint)),
                    identities: None,
                    ..progress
                }),
            );
            let declared = request.architecture;
            let recognised = fingerprint.receiver_architecture;
            let conflict = !(declared is Unknown) && !(recognised is Unknown) && declared
                != recognised;
            let wanted = ordered_set(request.materialization_tensors);
            let n = request.checkpoint_files.len() as int;
            let missing = exists|i: int|
                0 <= i < wanted.len() && !#[trigger] named_in_checkpoint(
                    progress.files,
                    n,
                    wanted[i],
                );
            &&& conflict ==> next == StepModel::Failed(
                ErrorView::Integrity("declared_receiver_architecture_conflicts_with_checkpoint"@),
            )
            &&& !conflict && missing ==> next == StepModel::Failed(
                ErrorView::Invalid("materialization_tensor_not_in_checkpoint"@),
            )
            &&& !conflict && !missing ==> next is Identify
        }),
{
    sorting_permutes_and_ascends(request.checkpoint_files);
    let n = request.checkpoint_files.len() as int;
    let wanted = ordered_set(request.materialization_tensors);
    checkpoints_are_the_union_of_their_files(progress.files, n);
    let tensors = files_merged(progress.files, n)->tensors;
    lemma_missing_tensors_are_refused(tensors, wanted);
    assert forall|name: Seq<char>| has_name(tensors, name) <==> #[trigger] named_in_checkpoint(
        progress.files,
        n,
        name,
    ) by {
        if has_name(tensors, name) {
            let i = choose|i: int| 0 <= i < tensors.len() && (#[trigger] tensors[i]).name == name;
            assert(tensors.contains(tensors[i]));
            assert(in_checkpoint(progress.files, n, tensors[i]));
        }
        if named_in_checkpoint(progress.files, n, name) {
            let entry = choose|entry: NamedModel<HeaderModel>| #[trigger]
                in_checkpoint(progress.files, n, entry) && entry.name == name;
            assert(tensors.contains(entry));
            let i = choose|i: int| 0 <= i < tensors.len() && tensors[i] == entry;
            assert(tensors[i].name == name);
        }
    }
    crate::order::sets_ascend_and_keep_every_key(request.materialization_tensors, Seq::empty());
    assert forall|i: int, j: int| 0 <= i < j < wanted.len() implies #[trigger] wanted[i]
        != #[trigger] wanted[j] by {
        assert(crate::order::key_less(wanted[i].key(), wanted[j].key()));
        crate::order::keys_are_totally_ordered(wanted[i].key(), wanted[j].key());
    }
    assert(forall|i: int|
        0 <= i < wanted.len() ==> (has_name(tensors, #[trigger] wanted[i]) <==> named_in_checkpoint(
            progress.files,
            n,
            wanted[i],
        )));
}

/// Whether some file of a checkpoint holds a tensor of the given name.
pub open spec fn named_in_checkpoint(files: Seq<FileModel>, n: int, name: Seq<char>) -> bool {
    exists|entry: NamedModel<HeaderModel>| #[trigger]
        in_checkpoint(files, n, entry) && entry.name == name
}

/// A tensor is described only if its type is a floating-point one, then only if its
/// name is usable as an identity, and then only if its elements can be counted.
pub proof fn tensors_are_refused_for_what_they_are(
    before: DescriptionModel,
    tensor: NamedModel<HeaderModel>,
    identity: Result<Seq<char>, ErrorView>,
    strategies: Seq<MaterializationStrategy>,
)
    requires
        !tensor.value.shape.contains(0),
    ensures
        ({
            let described = tensor_described(before, tensor, identity, strategies);
            let encoding = encoding_outcome(tensor.value.dtype);
            &&& encoding is Err ==> described == Err::<DescriptionModel, _>(encoding->Err_0)
            &&& encoding is Ok && identity is Err ==> described == Err::<DescriptionModel, _>(
                identity->Err_0,
            )
            &&& encoding is Ok && identity is Ok && elements_of(tensor.value.shape) > usize::MAX
                ==> described == Err::<DescriptionModel, _>(
                ErrorView::Invalid("checkpoint_parameter_overflow"@),
            )
            &&& encoding is Ok && identity is Ok && elements_of(tensor.value.shape) <= usize::MAX
                ==> described is Ok
        }),
{
    crate::checkpoint_adapter::counts_are_products_of_the_dimensions(
        tensor.value.shape,
        usize::MAX as int,
    );
}

} // verus!
